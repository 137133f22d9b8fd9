//! The costly-result discipline: every mutating operation accounts for
//! the network costs it has already incurred, even when it fails.

use vstd::prelude::*;

verus! {

/// One network cost: the amount paid and when, the timestamp in seconds.
pub struct LineItem {
    /// The cost in the network's smallest token unit.
    pub cost: u128,
    /// When the cost was incurred, in seconds.
    pub timestamp: u64,
}

/// An append-only log of the costs an operation incurred.
pub struct Receipt {
    items: Vec<LineItem>,
}

impl Receipt {
    /// The costs, in order of occurrence.
    pub closed spec fn items_spec(&self) -> Seq<(u128, u64)> {
        self.items@.map_values(|i: LineItem| (i.cost, i.timestamp))
    }

    /// The sum of a cost sequence.
    pub open spec fn total_spec(items: Seq<(u128, u64)>) -> int
        decreases items.len(),
    {
        if items.len() == 0 {
            0
        } else {
            items[0].0 + Self::total_spec(items.skip(1))
        }
    }

    /// An empty receipt.
    pub fn new() -> (r: Self)
        ensures r.items_spec() == Seq::<(u128, u64)>::empty(),
    {
        let r = Receipt { items: Vec::new() };
        proof { assert(r.items_spec() =~= Seq::<(u128, u64)>::empty()); }
        r
    }

    /// How many line items the receipt holds.
    pub fn len(&self) -> (r: usize)
        ensures r == self.items_spec().len(),
    {
        self.items.len()
    }

    /// Whether the receipt holds no line item.
    pub fn is_empty(&self) -> (r: bool)
        ensures r == (self.items_spec().len() == 0),
    {
        self.items.len() == 0
    }

    /// The line item at a position.
    pub fn index(&self, i: usize) -> (r: &LineItem)
        requires i < self.items_spec().len(),
        ensures (r.cost, r.timestamp) == self.items_spec()[i as int],
    {
        &self.items[i]
    }

    /// Appends one cost.
    pub fn add(&mut self, cost: u128, timestamp: u64)
        ensures final(self).items_spec() == old(self).items_spec().push((cost, timestamp)),
    {
        self.items.push(LineItem { cost, timestamp });
        proof {
            assert(self.items_spec() =~= old(self).items_spec().push((cost, timestamp)));
        }
    }

    /// Appends every line item of another receipt, preserving order.
    pub fn absorb(&mut self, mut rhs: Receipt)
        ensures final(self).items_spec() == old(self).items_spec() + rhs.items_spec(),
    {
        let n = rhs.items.len();
        let mut i: usize = 0;
        while i < n
            invariant
                i <= n,
                n == rhs.items_spec().len(),
                self.items_spec() == old(self).items_spec() + rhs.items_spec().take(i as int),
            decreases n - i,
        {
            let ghost pre = self.items_spec();
            let item = &rhs.items[i];
            self.items.push(LineItem { cost: item.cost, timestamp: item.timestamp });
            proof {
                assert(rhs.items_spec()[i as int]
                    == (rhs.items@[i as int].cost, rhs.items@[i as int].timestamp));
                assert(self.items_spec() =~= pre.push(rhs.items_spec()[i as int]));
                assert(rhs.items_spec().take(i + 1int)
                    =~= rhs.items_spec().take(i as int).push(rhs.items_spec()[i as int]));
                assert(self.items_spec() =~= old(self).items_spec()
                    + rhs.items_spec().take(i + 1int));
            }
            i += 1;
        }
        proof {
            assert(rhs.items_spec().take(rhs.items_spec().len() as int) =~= rhs.items_spec());
        }
    }

    /// The total cost, computed on demand.  The sum of 128-bit costs over
    /// a vector never overflows the unbounded model, and the model is
    /// capped here by requiring it to fit.
    pub fn total_cost(&self) -> (r: u128)
        requires Self::total_spec(self.items_spec()) <= u128::MAX,
        ensures r == Self::total_spec(self.items_spec()),
    {
        let mut total: u128 = 0;
        let mut i: usize = 0;
        proof {
            lemma_total_take(self.items_spec(), 0);
            lemma_total_nonneg(self.items_spec().skip(0));
            assert(self.items_spec().take(0) =~= Seq::<(u128, u64)>::empty());
        }
        while i < self.items.len()
            invariant
                i <= self.items_spec().len(),
                Self::total_spec(self.items_spec()) <= u128::MAX,
                total == Self::total_spec(self.items_spec().take(i as int)),
                total + Self::total_spec(self.items_spec().skip(i as int))
                    == Self::total_spec(self.items_spec()),
                Self::total_spec(self.items_spec().skip(i as int)) >= 0,
            decreases self.items_spec().len() - i,
        {
            proof {
                let items = self.items_spec();
                assert(items.skip(i as int).len() > 0);
                assert(items.skip(i as int)[0] == items[i as int]);
                assert(items.skip(i as int).skip(1) =~= items.skip(i + 1int));
                lemma_total_nonneg(items.skip(i + 1int));
                lemma_total_snoc(items.take(i as int), items[i as int]);
                assert(items.take(i + 1int) =~= items.take(i as int).push(items[i as int]));
            }
            total = total + self.items[i].cost;
            i += 1;
        }
        proof {
            assert(self.items_spec().take(self.items_spec().len() as int) =~= self.items_spec());
        }
        total
    }
}

/// A cost sequence sums to at least zero.
proof fn lemma_total_nonneg(items: Seq<(u128, u64)>)
    ensures Receipt::total_spec(items) >= 0,
    decreases items.len(),
{
    if items.len() > 0 {
        lemma_total_nonneg(items.skip(1));
    }
}

/// Appending a cost adds it to the sum.
proof fn lemma_total_snoc(items: Seq<(u128, u64)>, x: (u128, u64))
    ensures Receipt::total_spec(items.push(x)) == Receipt::total_spec(items) + x.0,
    decreases items.len(),
{
    if items.len() == 0 {
        let p = items.push(x);
        assert(p.len() == 1);
        assert(p[0] == x);
        assert(p.skip(1) =~= Seq::<(u128, u64)>::empty());
        assert(Receipt::total_spec(p) == p[0].0 + Receipt::total_spec(p.skip(1)));
        assert(Receipt::total_spec(p.skip(1)) == 0);
    } else {
        lemma_total_snoc(items.skip(1), x);
        assert(items.push(x).skip(1) =~= items.skip(1).push(x));
        assert(Receipt::total_spec(items.push(x))
            == items.push(x)[0].0 + Receipt::total_spec(items.push(x).skip(1)));
        assert(items.push(x)[0] == items[0]);
    }
}

/// The sum splits at any prefix boundary.
proof fn lemma_total_take(items: Seq<(u128, u64)>, i: int)
    requires 0 <= i <= items.len(),
    ensures
        Receipt::total_spec(items.take(i)) + Receipt::total_spec(items.skip(i))
            == Receipt::total_spec(items),
    decreases i,
{
    if i == 0 {
        assert(items.take(0) =~= Seq::<(u128, u64)>::empty());
        assert(items.skip(0) =~= items);
    } else {
        lemma_total_take(items, i - 1);
        lemma_total_snoc(items.take(i - 1), items[i - 1]);
        assert(items.take(i) =~= items.take(i - 1).push(items[i - 1]));
        assert(items.skip(i - 1).len() > 0);
        assert(items.skip(i - 1)[0] == items[i - 1]);
        assert(items.skip(i - 1).skip(1) =~= items.skip(i));
    }
}

/// The result of a mutating operation: the value or the error, either way
/// with the receipt of the costs already incurred.
pub type CostlyResult<T, E> = Result<(T, Receipt), (E, Receipt)>;

/// Runs one mutating operation under the costly-result discipline: the
/// operation fills a fresh receipt, and the caller sees that receipt with
/// the value or with the error, so costs already incurred are never lost.
pub fn with_receipt<T, E, F: FnOnce(Receipt) -> (Result<T, E>, Receipt)>(f: F)
    -> (r: CostlyResult<T, E>)
    requires
        forall|rc: Receipt| rc.items_spec() == Seq::<(u128, u64)>::empty()
            ==> #[trigger] f.requires((rc,)),
    ensures
        exists|input: Receipt, out: (Result<T, E>, Receipt)|
            input.items_spec() == Seq::<(u128, u64)>::empty()
            && #[trigger] f.ensures((input,), out)
            && (match out.0 {
                Ok(v) => r == Ok::<(T, Receipt), (E, Receipt)>((v, out.1)),
                Err(e) => r == Err::<(T, Receipt), (E, Receipt)>((e, out.1)),
            }),
{
    let fresh_receipt = Receipt::new();
    let (res, receipt) = f(fresh_receipt);
    match res {
        Ok(v) => Ok((v, receipt)),
        Err(e) => Err((e, receipt)),
    }
}

} // verus!
