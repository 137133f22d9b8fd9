//! The object types a vault can hold.

use vstd::prelude::*;

verus! {

/// A filesystem flavour.
#[derive(Clone, Copy, Debug, PartialEq, Eq, Structural, Hash)]
pub enum FileSystem {
    Posix,
    Windows,
}

/// An email store flavour.
#[derive(Clone, Copy, Debug, PartialEq, Eq, Structural, Hash)]
pub enum Email {
    IMAP,
    GMAIL,
}

/// An object storage flavour.
#[derive(Clone, Copy, Debug, PartialEq, Eq, Structural, Hash)]
pub enum ObjectStorage {
    S3,
}

/// What kind of data a vault holds.
#[derive(Clone, Copy, Debug, PartialEq, Eq, Structural, Hash)]
pub enum ObjectType {
    FileSystem(FileSystem),
    Email(Email),
    ObjectStorage(ObjectStorage),
}

/// The wire tag of an object type.
pub open spec fn object_type_tag(t: ObjectType) -> u8 {
    match t {
        ObjectType::FileSystem(FileSystem::Posix) => 0,
        ObjectType::FileSystem(FileSystem::Windows) => 1,
        ObjectType::Email(Email::IMAP) => 2,
        ObjectType::Email(Email::GMAIL) => 3,
        ObjectType::ObjectStorage(ObjectStorage::S3) => 4,
    }
}

impl ObjectType {
    /// The wire tag of this object type.
    pub fn tag(&self) -> (r: u8)
        ensures r == object_type_tag(*self),
    {
        match self {
            ObjectType::FileSystem(FileSystem::Posix) => 0,
            ObjectType::FileSystem(FileSystem::Windows) => 1,
            ObjectType::Email(Email::IMAP) => 2,
            ObjectType::Email(Email::GMAIL) => 3,
            ObjectType::ObjectStorage(ObjectStorage::S3) => 4,
        }
    }

    /// The object type a wire tag names, if any.
    pub fn from_tag(tag: u8) -> (r: Option<ObjectType>)
        ensures
            match r {
                Some(t) => object_type_tag(t) == tag,
                None => tag > 4,
            },
    {
        match tag {
            0 => Some(ObjectType::FileSystem(FileSystem::Posix)),
            1 => Some(ObjectType::FileSystem(FileSystem::Windows)),
            2 => Some(ObjectType::Email(Email::IMAP)),
            3 => Some(ObjectType::Email(Email::GMAIL)),
            4 => Some(ObjectType::ObjectStorage(ObjectStorage::S3)),
            _ => None,
        }
    }
}

} // verus!
