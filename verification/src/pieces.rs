//! Parameters as lists of addresses, data-types and properties.
use crate::dtype::Datatype;
use crate::error::FspecError;
use crate::joins::{AddrSpaceManager, JoinTable};
use crate::space;
use crate::space::{Address, VarnodeData};
use vstd::prelude::*;

verus! {

/// The parameter is the "this" pointer.
pub const ISTHIS: u32 = 1;

/// The parameter is a hidden pointer to the return value.
pub const HIDDENRETPARM: u32 = 2;

/// The parameter is a pointer to the true parameter.
pub const INDIRECTSTORAGE: u32 = 4;

/// The name is locked.
pub const NAMELOCK: u32 = 8;

/// The data-type is locked.
pub const TYPELOCK: u32 = 16;

/// The size is locked, though not the data-type.
pub const SIZELOCK: u32 = 32;

/// The storage, data-type and properties of a parameter.
#[derive(Debug, Clone, Copy, PartialEq, Eq, Structural)]
pub struct ParameterPieces {
    pub addr: Address,
    pub type_: Option<Datatype>,
    pub flags: u32,
}

/// A parameter of which nothing is known.
pub open spec fn no_pieces() -> ParameterPieces {
    ParameterPieces { addr: Address::invalid(), type_: None, flags: 0 }
}

impl Default for ParameterPieces {
    fn default() -> (r: ParameterPieces)
        ensures
            r == no_pieces(),
    {
        ParameterPieces { addr: Address::new_invalid(), type_: None, flags: 0 }
    }
}

/// The list, most significant piece first.
pub open spec fn most_significant_first(
    pieces: Seq<VarnodeData>,
    most_to_least: bool,
) -> Seq<VarnodeData> {
    if most_to_least {
        pieces
    } else {
        pieces.reverse()
    }
}

/// The pieces after neighbouring ones were put together, if they were.
pub open spec fn merged_view(merged: Option<Vec<VarnodeData>>) -> Option<Seq<VarnodeData>> {
    match merged {
        Some(m) => Some(m@),
        None => None,
    }
}

/// The pieces that a parameter is joined from.
pub open spec fn joined_pieces(
    pieces: Seq<VarnodeData>,
    most_to_least: bool,
    merged: Option<Seq<VarnodeData>>,
) -> Seq<VarnodeData> {
    match merged {
        Some(m) => m,
        None => most_significant_first(pieces, most_to_least),
    }
}

/// The address of a parameter made up of these pieces.
pub open spec fn pieces_address(seq: Seq<VarnodeData>, t: JoinTable) -> Result<Address, FspecError> {
    if seq.len() == 1 {
        if seq[0].space is None {
            Err(FspecError::PieceWithoutSpace)
        } else {
            Ok(seq[0].addr())
        }
    } else {
        match t.find_add(seq, 0) {
            Ok(v) => Ok(v.addr()),
            Err(e) => Err(e),
        }
    }
}

/// Turn a list of pieces around unless its most significant piece is first.
pub fn order_pieces(pieces: &Vec<VarnodeData>, most_to_least: bool) -> (r: Vec<VarnodeData>)
    ensures
        r@ == most_significant_first(pieces@, most_to_least),
{
    if most_to_least {
        return space::copy_locations(pieces);
    }
    let mut out: Vec<VarnodeData> = Vec::new();
    let mut i: usize = pieces.len();
    while i > 0
        invariant
            i <= pieces.len(),
            out@.len() == pieces.len() - i,
            forall|k: int| 0 <= k < out@.len() ==> out@[k] == pieces@[pieces.len() - 1 - k],
        decreases i,
    {
        i -= 1;
        out.push(pieces[i]);
    }
    assert(out@ =~= pieces@.reverse());
    out
}

impl ParameterPieces {
    /// Exchange data-type and properties with another parameter; the storage
    /// of both stays.
    pub fn swap_markup(&mut self, op: &mut ParameterPieces)
        ensures
            *final(self) == (ParameterPieces { addr: old(self).addr, ..*old(op) }),
            *final(op) == (ParameterPieces { addr: old(op).addr, ..*old(self) }),
    {
        let flags: u32 = self.flags;
        let type_ = self.type_;
        self.flags = op.flags;
        self.type_ = op.type_;
        op.flags = flags;
        op.type_ = type_;
    }

    /// Set the address from the pieces that make up the parameter: the only
    /// piece itself, or the join of all of them. The list is turned around
    /// unless its most significant piece is first. `merged` is what remains of
    /// it once neighbouring pieces are put together into registers, if the
    /// registers are known; it replaces the list.
    pub fn assign_address_from_pieces(
        &mut self,
        pieces: &mut Vec<VarnodeData>,
        most_to_least: bool,
        merged: Option<Vec<VarnodeData>>,
        manager: &mut AddrSpaceManager,
    ) -> (r: Result<(), FspecError>)
        requires
            space::pieces_size(
                joined_pieces(old(pieces)@, most_to_least, merged_view(merged)),
                0,
            ) <= i32::MAX,
        ensures
            ({
                let seq = joined_pieces(old(pieces)@, most_to_least, merged_view(merged));
                let t = old(manager).table();
                &&& r == (match pieces_address(seq, t) {
                    Ok(_) => Ok::<(), FspecError>(()),
                    Err(e) => Err(e),
                })
                &&& match pieces_address(seq, t) {
                    Ok(addr) => *final(self) == (ParameterPieces { addr, ..*old(self) })
                        && final(pieces)@ == seq,
                    Err(_) => *final(self) == *old(self) && final(pieces)@
                        == most_significant_first(old(pieces)@, most_to_least),
                }
                &&& final(manager).table() == (if seq.len() == 1 {
                    t
                } else {
                    t.after_find_add(seq, 0)
                })
            }),
    {
        *pieces = order_pieces(pieces, most_to_least);
        let seq = match merged {
            Some(m) => m,
            None => space::copy_locations(pieces),
        };
        if seq.len() == 1 {
            let p = seq[0];
            if p.space.is_none() {
                return Err(FspecError::PieceWithoutSpace);
            }
            self.addr = p.get_addr();
            *pieces = seq;
            return Ok(());
        }
        match manager.find_add_join(&seq, 0) {
            Ok(unified) => {
                self.addr = unified.get_addr();
                *pieces = seq;
                Ok(())
            },
            Err(e) => Err(e),
        }
    }
}

/// Exchanging the markup of two parameters twice changes nothing.
pub proof fn law_swap_markup_undone(a: ParameterPieces, b: ParameterPieces)
    ensures
        ({
            let a1 = ParameterPieces { addr: a.addr, ..b };
            let b1 = ParameterPieces { addr: b.addr, ..a };
            (ParameterPieces { addr: a1.addr, ..b1 }) == a && (ParameterPieces {
                addr: b1.addr,
                ..a1
            }) == b
        }),
{
}

/// The components of a prototype as declared. `first_var_arg_slot` is the
/// position of the first variable argument, or -1. The storage of the return
/// value, and of single inputs by position, may be given explicitly.
#[derive(Debug)]
pub struct PrototypePieces {
    pub name: String,
    pub outtype: Option<Datatype>,
    pub intypes: Vec<Datatype>,
    pub innames: Vec<String>,
    pub first_var_arg_slot: i32,
    pub output_storage: Option<ParameterPieces>,
    pub input_storage: Vec<(i32, ParameterPieces)>,
}

/// The components of a prototype in the abstract.
#[verifier::ext_equal]
pub struct PiecesView {
    pub name: Seq<char>,
    pub outtype: Option<Datatype>,
    pub intypes: Seq<Datatype>,
    pub innames: Seq<Seq<char>>,
    pub first_var_arg_slot: i32,
    pub output_storage: Option<ParameterPieces>,
    pub input_storage: Seq<(i32, ParameterPieces)>,
}

/// The abstract form of a list of names.
pub open spec fn names_view(s: Seq<String>) -> Seq<Seq<char>> {
    Seq::new(s.len(), |i: int| s[i]@)
}

impl View for PrototypePieces {
    type V = PiecesView;

    open spec fn view(&self) -> PiecesView {
        PiecesView {
            name: self.name@,
            outtype: self.outtype,
            intypes: self.intypes@,
            innames: names_view(self.innames@),
            first_var_arg_slot: self.first_var_arg_slot,
            output_storage: self.output_storage,
            input_storage: self.input_storage@,
        }
    }
}

/// The components of a prototype of which nothing is declared.
pub open spec fn blank_pieces() -> PiecesView {
    PiecesView {
        name: Seq::empty(),
        outtype: None,
        intypes: Seq::empty(),
        innames: Seq::empty(),
        first_var_arg_slot: -1i32,
        output_storage: None,
        input_storage: Seq::empty(),
    }
}

impl Default for PrototypePieces {
    /// No components, with every argument variable.
    fn default() -> (r: PrototypePieces)
        ensures
            r@ == (PiecesView { first_var_arg_slot: 0i32, ..blank_pieces() }),
    {
        let mut r = PrototypePieces::new();
        r.first_var_arg_slot = 0;
        r
    }
}

impl PrototypePieces {
    pub fn new() -> (r: PrototypePieces)
        ensures
            r@ == blank_pieces(),
    {
        let r = PrototypePieces {
            name: String::new(),
            outtype: None,
            intypes: Vec::new(),
            innames: Vec::new(),
            first_var_arg_slot: -1,
            output_storage: None,
            input_storage: Vec::new(),
        };
        assert(r@ =~= blank_pieces());
        r
    }

    /// The same components with the return type `t`.
    pub fn with_outtype(&self, t: Datatype) -> (r: PrototypePieces)
        ensures
            r@ == (PiecesView { outtype: Some(t), ..self@ }),
    {
        let mut intypes: Vec<Datatype> = Vec::new();
        let mut i: usize = 0;
        while i < self.intypes.len()
            invariant
                i <= self.intypes.len(),
                intypes@ == self.intypes@.take(i as int),
            decreases self.intypes.len() - i,
        {
            intypes.push(self.intypes[i]);
            i += 1;
            assert(intypes@ =~= self.intypes@.take(i as int));
        }
        assert(intypes@ =~= self.intypes@);
        let mut innames: Vec<String> = Vec::new();
        i = 0;
        while i < self.innames.len()
            invariant
                i <= self.innames.len(),
                innames.len() == i,
                forall|k: int| 0 <= k < i ==> (#[trigger] innames@[k])@ == self.innames@[k]@,
            decreases self.innames.len() - i,
        {
            innames.push(self.innames[i].as_str().to_owned());
            i += 1;
        }
        assert(names_view(innames@) =~= names_view(self.innames@));
        let mut input_storage: Vec<(i32, ParameterPieces)> = Vec::new();
        i = 0;
        while i < self.input_storage.len()
            invariant
                i <= self.input_storage.len(),
                input_storage@ == self.input_storage@.take(i as int),
            decreases self.input_storage.len() - i,
        {
            input_storage.push(self.input_storage[i]);
            i += 1;
            assert(input_storage@ =~= self.input_storage@.take(i as int));
        }
        assert(input_storage@ =~= self.input_storage@);
        PrototypePieces {
            name: self.name.as_str().to_owned(),
            outtype: Some(t),
            intypes,
            innames,
            first_var_arg_slot: self.first_var_arg_slot,
            output_storage: self.output_storage,
            input_storage,
        }
    }
}

} // verus!
