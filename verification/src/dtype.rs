//! The properties of data-types that storage assignment reads.
use vstd::prelude::*;

verus! {

/// Broad class of storage that a data-type asks for.
#[derive(Debug, Clone, Copy, PartialEq, Eq, Structural)]
pub enum TypeClass {
    General,
    Float,
    Ptr,
    HiddenRet,
    Vector,
    Class1,
    Class2,
    Class3,
    Class4,
}

/// The rank of a class among the classes.
pub open spec fn class_rank(c: TypeClass) -> int {
    match c {
        TypeClass::General => 0,
        TypeClass::Float => 1,
        TypeClass::Ptr => 2,
        TypeClass::HiddenRet => 3,
        TypeClass::Vector => 4,
        TypeClass::Class1 => 100,
        TypeClass::Class2 => 101,
        TypeClass::Class3 => 102,
        TypeClass::Class4 => 103,
    }
}

pub fn rank_of(c: TypeClass) -> (r: i32)
    ensures
        r == class_rank(c),
{
    match c {
        TypeClass::General => 0,
        TypeClass::Float => 1,
        TypeClass::Ptr => 2,
        TypeClass::HiddenRet => 3,
        TypeClass::Vector => 4,
        TypeClass::Class1 => 100,
        TypeClass::Class2 => 101,
        TypeClass::Class3 => 102,
        TypeClass::Class4 => 103,
    }
}

/// The kind of a data-type.
#[derive(Debug, Clone, Copy, PartialEq, Eq, Structural)]
pub enum TypeMetatype {
    Void,
    Unknown,
    Int,
    Uint,
    Bool,
    Code,
    Float,
    Ptr,
    Array,
    Struct,
    Union,
}

/// A data-type: its size, the alignment and padded size it has in memory, its
/// kind, the identity of the type it is or, through `ptr_depth` pointers,
/// leads to.
#[derive(Debug, Clone, Copy, PartialEq, Eq, Structural)]
pub struct Datatype {
    pub id: u64,
    pub size: i32,
    pub alignment: i32,
    pub align_size: i32,
    pub metatype: TypeMetatype,
    pub ptr_depth: u64,
}

impl Datatype {
    /// A type whose padded size is its size.
    pub fn new(size: i32, metatype: TypeMetatype) -> (r: Datatype)
        ensures
            r == (Datatype {
                id: 0,
                size,
                alignment: 1,
                align_size: size,
                metatype,
                ptr_depth: 0,
            }),
    {
        Datatype { id: 0, size, alignment: 1, align_size: size, metatype, ptr_depth: 0 }
    }

    pub fn new_with_align(size: i32, alignment: i32, metatype: TypeMetatype) -> (r: Datatype)
        ensures
            r == (Datatype {
                id: 0,
                size,
                alignment,
                align_size: size,
                metatype,
                ptr_depth: 0,
            }),
    {
        Datatype { id: 0, size, alignment, align_size: size, metatype, ptr_depth: 0 }
    }

    pub fn get_size(&self) -> (r: i32)
        ensures
            r == self.size,
    {
        self.size
    }

    pub fn get_metatype(&self) -> (r: TypeMetatype)
        ensures
            r == self.metatype,
    {
        self.metatype
    }
}

/// The type of no value.
pub open spec fn void_type() -> Datatype {
    Datatype {
        id: 0,
        size: 0,
        alignment: 1,
        align_size: 0,
        metatype: TypeMetatype::Void,
        ptr_depth: 0,
    }
}

/// The pointer of `size` bytes to the data-type `to`.
pub open spec fn pointer_to(to: Datatype, size: i32) -> Datatype {
    Datatype {
        id: to.id,
        size,
        alignment: size,
        align_size: size,
        metatype: TypeMetatype::Ptr,
        ptr_depth: if to.ptr_depth < u64::MAX {
            (to.ptr_depth + 1) as u64
        } else {
            to.ptr_depth
        },
    }
}

pub fn make_pointer(to: &Datatype, size: i32) -> (r: Datatype)
    ensures
        r == pointer_to(*to, size),
{
    Datatype {
        id: to.id,
        size,
        alignment: size,
        align_size: size,
        metatype: TypeMetatype::Ptr,
        ptr_depth: if to.ptr_depth < u64::MAX {
            to.ptr_depth + 1
        } else {
            to.ptr_depth
        },
    }
}

/// The storage class that a kind of data-type asks for.
pub open spec fn class_of(m: TypeMetatype) -> TypeClass {
    match m {
        TypeMetatype::Float => TypeClass::Float,
        TypeMetatype::Ptr => TypeClass::Ptr,
        _ => TypeClass::General,
    }
}

pub fn metatype2typeclass(m: TypeMetatype) -> (r: TypeClass)
    ensures
        r == class_of(m),
{
    match m {
        TypeMetatype::Float => TypeClass::Float,
        TypeMetatype::Ptr => TypeClass::Ptr,
        _ => TypeClass::General,
    }
}

} // verus!
