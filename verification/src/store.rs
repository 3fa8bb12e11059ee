//! The parameters of a prototype and the collection that holds them.
use crate::dtype::{Datatype, TypeMetatype};
use crate::error::FspecError;
use crate::num;
use crate::pieces;
use crate::pieces::ParameterPieces;
use crate::space::Address;
use vstd::prelude::*;

verus! {

/// A parameter in the abstract.
#[verifier::ext_equal]
pub struct ParamView {
    pub name: Seq<char>,
    pub addr: Address,
    pub type_: Option<Datatype>,
    pub flags: u32,
}

/// The data-type of a value of `size` bytes of which nothing is known.
pub open spec fn unknown_of(size: i32) -> Datatype {
    Datatype {
        id: 0,
        size,
        alignment: 1,
        align_size: size,
        metatype: TypeMetatype::Unknown,
        ptr_depth: 0,
    }
}

impl ParamView {
    /// The number of bytes, 0 without a data-type.
    pub open spec fn size(self) -> i32 {
        match self.type_ {
            Some(t) => t.size,
            None => 0,
        }
    }

    /// Is the data-type known to be of this kind.
    pub open spec fn is_kind(self, m: TypeMetatype) -> bool {
        self.type_ matches Some(t) && t.metatype == m
    }

    pub open spec fn type_locked(self) -> bool {
        num::bit(self.flags, pieces::TYPELOCK)
    }

    pub open spec fn name_locked(self) -> bool {
        num::bit(self.flags, pieces::NAMELOCK)
    }

    pub open spec fn size_locked(self) -> bool {
        num::bit(self.flags, pieces::SIZELOCK)
    }

    pub open spec fn this_pointer(self) -> bool {
        num::bit(self.flags, pieces::ISTHIS)
    }

    pub open spec fn indirect(self) -> bool {
        num::bit(self.flags, pieces::INDIRECTSTORAGE)
    }

    pub open spec fn hidden_return(self) -> bool {
        num::bit(self.flags, pieces::HIDDENRETPARM)
    }

    /// Locking an unknown data-type locks the size alone; unlocking takes both
    /// locks away.
    pub open spec fn with_type_lock(self, val: bool) -> ParamView {
        ParamView {
            flags: if !val {
                self.flags & !(pieces::TYPELOCK | pieces::SIZELOCK)
            } else if self.is_kind(TypeMetatype::Unknown) {
                (self.flags | pieces::TYPELOCK) | pieces::SIZELOCK
            } else {
                self.flags | pieces::TYPELOCK
            },
            ..self
        }
    }

    pub open spec fn with_name_lock(self, val: bool) -> ParamView {
        ParamView {
            flags: if val {
                self.flags | pieces::NAMELOCK
            } else {
                self.flags & !pieces::NAMELOCK
            },
            ..self
        }
    }

    pub open spec fn with_this(self, val: bool) -> ParamView {
        ParamView {
            flags: if val {
                self.flags | pieces::ISTHIS
            } else {
                self.flags & !pieces::ISTHIS
            },
            ..self
        }
    }

    /// The data-type forgotten, its size kept.
    pub open spec fn with_size_only(self) -> ParamView {
        if self.is_kind(TypeMetatype::Unknown) {
            self
        } else {
            ParamView { type_: Some(unknown_of(self.size())), ..self }
        }
    }
}

/// A function parameter: a name, a data-type and storage.
pub trait ProtoParameter: Sized {
    spec fn param(&self) -> ParamView;

    fn get_name(&self) -> (r: &str)
        ensures
            r@ == self.param().name,
    ;

    fn get_type(&self) -> (r: Option<Datatype>)
        ensures
            r == self.param().type_,
    ;

    fn get_address(&self) -> (r: Address)
        ensures
            r == self.param().addr,
    ;

    fn get_size(&self) -> (r: i32)
        ensures
            r == self.param().size(),
    ;

    fn is_type_locked(&self) -> (r: bool)
        ensures
            r == self.param().type_locked(),
    ;

    fn is_name_locked(&self) -> (r: bool)
        ensures
            r == self.param().name_locked(),
    ;

    fn is_size_type_locked(&self) -> (r: bool)
        ensures
            r == self.param().size_locked(),
    ;

    fn is_this_pointer(&self) -> (r: bool)
        ensures
            r == self.param().this_pointer(),
    ;

    fn is_indirect_storage(&self) -> (r: bool)
        ensures
            r == self.param().indirect(),
    ;

    fn is_hidden_return(&self) -> (r: bool)
        ensures
            r == self.param().hidden_return(),
    ;

    fn is_name_undefined(&self) -> (r: bool)
        ensures
            r == (self.param().name.len() == 0),
    ;

    fn set_type_lock(&mut self, val: bool)
        ensures
            final(self).param() == old(self).param().with_type_lock(val),
    ;

    fn set_name_lock(&mut self, val: bool)
        ensures
            final(self).param() == old(self).param().with_name_lock(val),
    ;

    fn set_this_pointer(&mut self, val: bool)
        ensures
            final(self).param() == old(self).param().with_this(val),
    ;

    /// Replace the data-type of a parameter whose size is locked by another of
    /// the same size.
    fn override_size_lock_type(&mut self, ct: Datatype) -> (r: Result<(), FspecError>)
        ensures
            r is Ok <==> old(self).param().size() == ct.size && old(self).param().size_locked(),
            r matches Err(e) ==> e == (if old(self).param().size() == ct.size {
                FspecError::NotSizeLocked
            } else {
                FspecError::DifferentTypeSize
            }),
            final(self).param() == (if r is Ok {
                ParamView { type_: Some(ct), ..old(self).param() }
            } else {
                old(self).param()
            }),
    ;

    /// Forget the data-type and keep its size.
    fn reset_size_lock_type(&mut self)
        ensures
            final(self).param() == old(self).param().with_size_only(),
    ;
}

/// A parameter with no symbol behind it. The name is empty if undefined, as it
/// is for a return value.
#[derive(Debug)]
pub struct ParameterBasic {
    pub name: String,
    pub addr: Address,
    pub type_: Option<Datatype>,
    pub flags: u32,
}

impl View for ParameterBasic {
    type V = ParamView;

    open spec fn view(&self) -> ParamView {
        ParamView { name: self.name@, addr: self.addr, type_: self.type_, flags: self.flags }
    }
}

impl ParameterBasic {
    pub fn new(name: &str, addr: Address, type_: Datatype, flags: u32) -> (r: ParameterBasic)
        ensures
            r@ == (ParamView { name: name@, addr, type_: Some(type_), flags }),
    {
        ParameterBasic { name: name.to_owned(), addr, type_: Some(type_), flags }
    }

    /// A nameless parameter without storage.
    pub fn new_void(type_: Datatype) -> (r: ParameterBasic)
        ensures
            r@ == (ParamView {
                name: Seq::empty(),
                addr: Address::invalid(),
                type_: Some(type_),
                flags: 0,
            }),
    {
        ParameterBasic {
            name: String::new(),
            addr: Address::new_invalid(),
            type_: Some(type_),
            flags: 0,
        }
    }

    pub fn copy(&self) -> (r: ParameterBasic)
        ensures
            r@ == self@,
    {
        ParameterBasic {
            name: self.name.as_str().to_owned(),
            addr: self.addr,
            type_: self.type_,
            flags: self.flags,
        }
    }
}

impl ProtoParameter for ParameterBasic {
    open spec fn param(&self) -> ParamView {
        self@
    }

    fn get_name(&self) -> (r: &str) {
        self.name.as_str()
    }

    fn get_type(&self) -> (r: Option<Datatype>) {
        self.type_
    }

    fn get_address(&self) -> (r: Address) {
        self.addr
    }

    fn get_size(&self) -> (r: i32) {
        match self.type_ {
            Some(t) => t.size,
            None => 0,
        }
    }

    fn is_type_locked(&self) -> (r: bool) {
        num::has_bit(self.flags, pieces::TYPELOCK)
    }

    fn is_name_locked(&self) -> (r: bool) {
        num::has_bit(self.flags, pieces::NAMELOCK)
    }

    fn is_size_type_locked(&self) -> (r: bool) {
        num::has_bit(self.flags, pieces::SIZELOCK)
    }

    fn is_this_pointer(&self) -> (r: bool) {
        num::has_bit(self.flags, pieces::ISTHIS)
    }

    fn is_indirect_storage(&self) -> (r: bool) {
        num::has_bit(self.flags, pieces::INDIRECTSTORAGE)
    }

    fn is_hidden_return(&self) -> (r: bool) {
        num::has_bit(self.flags, pieces::HIDDENRETPARM)
    }

    fn is_name_undefined(&self) -> (r: bool) {
        self.name.as_str().unicode_len() == 0
    }

    fn set_type_lock(&mut self, val: bool) {
        if val {
            let unknown = match self.type_ {
                Some(t) => t.metatype == TypeMetatype::Unknown,
                None => false,
            };
            self.flags = self.flags | pieces::TYPELOCK;
            if unknown {
                self.flags = self.flags | pieces::SIZELOCK;
            }
        } else {
            self.flags = self.flags & !(pieces::TYPELOCK | pieces::SIZELOCK);
        }
    }

    fn set_name_lock(&mut self, val: bool) {
        if val {
            self.flags = self.flags | pieces::NAMELOCK;
        } else {
            self.flags = self.flags & !pieces::NAMELOCK;
        }
    }

    fn set_this_pointer(&mut self, val: bool) {
        if val {
            self.flags = self.flags | pieces::ISTHIS;
        } else {
            self.flags = self.flags & !pieces::ISTHIS;
        }
    }

    fn override_size_lock_type(&mut self, ct: Datatype) -> (r: Result<(), FspecError>) {
        if self.get_size() == ct.size {
            if !self.is_size_type_locked() {
                return Err(FspecError::NotSizeLocked);
            }
            self.type_ = Some(ct);
            return Ok(());
        }
        Err(FspecError::DifferentTypeSize)
    }

    fn reset_size_lock_type(&mut self) {
        let size: i32 = match self.type_ {
            Some(t) => {
                if t.metatype == TypeMetatype::Unknown {
                    return ;
                }
                t.size
            },
            None => 0,
        };
        self.type_ = Some(Datatype::new(size, TypeMetatype::Unknown));
    }
}

/// Two parameters agree in storage and data-type.
pub open spec fn agree(a: ParamView, b: ParamView) -> bool {
    a.addr == b.addr && a.type_ == b.type_
}

/// Do two parameters agree in storage and data-type.
pub fn proto_parameter_eq<P: ProtoParameter>(a: &P, b: &P) -> (r: bool)
    ensures
        r == agree(a.param(), b.param()),
{
    let x = a.get_address();
    let y = b.get_address();
    if !x.same(&y) {
        return false;
    }
    match (a.get_type(), b.get_type()) {
        (Some(s), Some(t)) => s == t,
        (None, None) => true,
        _ => false,
    }
}

/// The inputs and the return value of a prototype in the abstract; an input
/// may be missing.
#[verifier::ext_equal]
pub struct StoreView {
    pub voidtype: Datatype,
    pub inparam: Seq<Option<ParamView>>,
    pub outparam: Option<ParamView>,
}

/// A parameter made of pieces, under a name.
pub open spec fn made_of(nm: Seq<char>, p: ParameterPieces) -> ParamView {
    ParamView { name: nm, addr: p.addr, type_: p.type_, flags: p.flags }
}

/// The list with missing inputs added, so that position `i` exists.
pub open spec fn padded(s: Seq<Option<ParamView>>, i: int) -> Seq<Option<ParamView>> {
    if i < s.len() {
        s
    } else {
        s + Seq::new((i + 1 - s.len()) as nat, |k: int| None::<ParamView>)
    }
}

/// The list without missing inputs at its end.
pub open spec fn trimmed(s: Seq<Option<ParamView>>) -> Seq<Option<ParamView>>
    decreases s.len(),
{
    if s.len() > 0 && s.last() is None {
        trimmed(s.drop_last())
    } else {
        s
    }
}

/// The abstract form of an optional parameter.
pub open spec fn param_view(p: Option<ParameterBasic>) -> Option<ParamView> {
    match p {
        Some(x) => Some(x@),
        None => None,
    }
}

/// The abstract form of a list of optional parameters.
pub open spec fn params_view(s: Seq<Option<ParameterBasic>>) -> Seq<Option<ParamView>> {
    Seq::new(s.len(), |i: int| param_view(s[i]))
}

impl StoreView {
    /// The `i`-th input, if there is one.
    pub open spec fn input(self, i: int) -> Option<ParamView> {
        if 0 <= i < self.inparam.len() {
            self.inparam[i]
        } else {
            None
        }
    }

    /// The return value.
    pub open spec fn output(self) -> ParamView {
        self.outparam->0
    }

    /// The return value is described and the inputs can be counted.
    pub open spec fn wf(self) -> bool {
        self.outparam is Some && self.inparam.len() <= i32::MAX
    }

    pub open spec fn with_input(self, i: int, nm: Seq<char>, p: ParameterPieces) -> StoreView {
        StoreView {
            inparam: padded(self.inparam, i).update(i, Some(made_of(nm, p))),
            ..self
        }
    }

    /// The `i`-th input taken out and the later ones moved down.
    pub open spec fn without_input(self, i: int) -> StoreView {
        if 0 <= i < self.inparam.len() {
            StoreView { inparam: trimmed(self.inparam.remove(i)), ..self }
        } else {
            self
        }
    }

    pub open spec fn without_inputs(self) -> StoreView {
        StoreView { inparam: Seq::empty(), ..self }
    }

    pub open spec fn with_output(self, p: ParameterPieces) -> StoreView {
        StoreView { outparam: Some(made_of(Seq::empty(), p)), ..self }
    }

    /// The return value set to no value.
    pub open spec fn without_output(self) -> StoreView {
        StoreView {
            outparam: Some(
                ParamView {
                    name: Seq::empty(),
                    addr: Address::invalid(),
                    type_: Some(self.voidtype),
                    flags: 0,
                },
            ),
            ..self
        }
    }
}

/// A collection without inputs and without a return value.
pub open spec fn empty_store(vt: Datatype) -> StoreView {
    StoreView { voidtype: vt, inparam: Seq::empty(), outparam: None }.without_output()
}

/// The descriptions of the inputs and of the return value of a prototype.
pub trait ProtoStore: Sized {
    spec fn store(&self) -> StoreView;

    fn set_input(&mut self, i: i32, nm: &str, p: &ParameterPieces)
        requires
            0 <= i < i32::MAX,
            p.type_ is Some,
        ensures
            final(self).store() == old(self).store().with_input(i as int, nm@, *p),
    ;

    /// Take out an input, moving the later ones down.
    fn clear_input(&mut self, i: i32)
        ensures
            final(self).store() == old(self).store().without_input(i as int),
    ;

    fn clear_all_inputs(&mut self)
        ensures
            final(self).store() == old(self).store().without_inputs(),
    ;

    fn get_num_inputs(&self) -> (r: i32)
        ensures
            r == self.store().inparam.len() as i32,
    ;

    fn get_input(&self, i: i32) -> (r: Option<&ParameterBasic>)
        ensures
            match r {
                Some(p) => self.store().input(i as int) == Some(p@),
                None => self.store().input(i as int) is None,
            },
    ;

    fn set_output(&mut self, p: &ParameterPieces)
        requires
            p.type_ is Some,
        ensures
            final(self).store() == old(self).store().with_output(*p),
    ;

    /// Set the return value to no value.
    fn clear_output(&mut self)
        ensures
            final(self).store() == old(self).store().without_output(),
    ;

    fn get_output(&self) -> (r: &ParameterBasic)
        requires
            self.store().outparam is Some,
        ensures
            r@ == self.store().output(),
    ;

    /// Put another description in the place of the `i`-th input.
    fn replace_input(&mut self, i: i32, p: ParameterBasic)
        requires
            0 <= i < old(self).store().inparam.len(),
        ensures
            final(self).store() == (StoreView {
                inparam: old(self).store().inparam.update(i as int, Some(p@)),
                ..old(self).store()
            }),
    ;

    /// Put another description in the place of the return value.
    fn replace_output(&mut self, p: ParameterBasic)
        ensures
            final(self).store() == (StoreView { outparam: Some(p@), ..old(self).store() }),
    ;

    fn copy(&self) -> (r: Self)
        ensures
            r.store() == self.store(),
    ;
}

/// A collection of parameters with no symbols behind them.
#[derive(Debug)]
pub struct ProtoStoreInternal {
    pub voidtype: Datatype,
    pub inparam: Vec<Option<ParameterBasic>>,
    pub outparam: Option<ParameterBasic>,
}

impl View for ProtoStoreInternal {
    type V = StoreView;

    open spec fn view(&self) -> StoreView {
        StoreView {
            voidtype: self.voidtype,
            inparam: params_view(self.inparam@),
            outparam: param_view(self.outparam),
        }
    }
}

impl ProtoStoreInternal {
    /// A collection whose return value is of the type of no value.
    pub fn new(vt: Datatype) -> (r: ProtoStoreInternal)
        ensures
            r@ == empty_store(vt),
    {
        let r = ProtoStoreInternal {
            voidtype: vt,
            inparam: Vec::new(),
            outparam: Some(ParameterBasic::new_void(vt)),
        };
        assert(r@.inparam =~= Seq::empty());
        r
    }
}

impl ProtoStore for ProtoStoreInternal {
    open spec fn store(&self) -> StoreView {
        self@
    }

    fn set_input(&mut self, i: i32, nm: &str, p: &ParameterPieces) {
        let at: usize = i as usize;
        let ghost s0 = old(self)@;
        while self.inparam.len() <= at
            invariant
                at == i,
                s0 == old(self)@,
                self.inparam.len() <= if s0.inparam.len() > at + 1 {
                    s0.inparam.len() as int
                } else {
                    at + 1
                },
                self.inparam.len() >= s0.inparam.len(),
                self.voidtype == s0.voidtype,
                param_view(self.outparam) == s0.outparam,
                forall|k: int|
                    0 <= k < self.inparam.len() ==> param_view(#[trigger] self.inparam@[k]) == (if k
                        < s0.inparam.len() {
                        s0.inparam[k]
                    } else {
                        None
                    }),
            decreases at + 1 - self.inparam.len(),
        {
            self.inparam.push(None);
        }
        let q = ParameterBasic { name: nm.to_owned(), addr: p.addr, type_: p.type_, flags: p.flags };
        self.inparam.set(at, Some(q));
        assert(self@.inparam =~= padded(s0.inparam, i as int).update(
            i as int,
            Some(made_of(nm@, *p)),
        ));
    }

    fn clear_input(&mut self, i: i32) {
        if i < 0 || i as usize >= self.inparam.len() {
            return ;
        }
        let gone = self.inparam.remove(i as usize);
        let ghost mid = params_view(self.inparam@);
        assert(mid =~= old(self)@.inparam.remove(i as int));
        while self.inparam.len() > 0 && self.inparam[self.inparam.len() - 1].is_none()
            invariant
                trimmed(mid) == trimmed(params_view(self.inparam@)),
                self.voidtype == old(self)@.voidtype,
                param_view(self.outparam) == old(self)@.outparam,
            decreases self.inparam.len(),
        {
            let ghost before = params_view(self.inparam@);
            assert(before.last() is None);
            let last = self.inparam.pop();
            assert(params_view(self.inparam@) =~= before.drop_last());
        }
        assert(self.inparam.len() > 0 ==> params_view(self.inparam@).last() is Some);
    }

    fn clear_all_inputs(&mut self) {
        self.inparam.clear();
        assert(self@.inparam =~= Seq::empty());
    }

    fn get_num_inputs(&self) -> (r: i32) {
        self.inparam.len() as i32
    }

    fn get_input(&self, i: i32) -> (r: Option<&ParameterBasic>) {
        if i < 0 || i as usize >= self.inparam.len() {
            return None;
        }
        match &self.inparam[i as usize] {
            Some(p) => Some(p),
            None => None,
        }
    }

    fn set_output(&mut self, p: &ParameterPieces) {
        self.outparam = Some(
            ParameterBasic { name: String::new(), addr: p.addr, type_: p.type_, flags: p.flags },
        );
    }

    fn clear_output(&mut self) {
        self.outparam = Some(ParameterBasic::new_void(self.voidtype));
    }

    fn get_output(&self) -> (r: &ParameterBasic) {
        self.outparam.as_ref().unwrap()
    }

    fn replace_input(&mut self, i: i32, p: ParameterBasic) {
        self.inparam.set(i as usize, Some(p));
        assert(self@.inparam =~= old(self)@.inparam.update(i as int, Some(p@)));
    }

    fn replace_output(&mut self, p: ParameterBasic) {
        self.outparam = Some(p);
    }

    fn copy(&self) -> (r: ProtoStoreInternal) {
        let mut v: Vec<Option<ParameterBasic>> = Vec::new();
        let mut i: usize = 0;
        while i < self.inparam.len()
            invariant
                i <= self.inparam.len(),
                v.len() == i,
                forall|k: int| 0 <= k < i ==> param_view(#[trigger] v@[k]) == self@.inparam[k],
            decreases self.inparam.len() - i,
        {
            v.push(
                match &self.inparam[i] {
                    Some(p) => Some(p.copy()),
                    None => None,
                },
            );
            i += 1;
        }
        let r = ProtoStoreInternal {
            voidtype: self.voidtype,
            inparam: v,
            outparam: match &self.outparam {
                Some(p) => Some(p.copy()),
                None => None,
            },
        };
        assert(r@.inparam =~= self@.inparam);
        r
    }
}

/// A data-type lock set and then taken away leaves neither lock behind, and
/// the other properties as they were.
pub proof fn law_type_lock_undone(p: ParamView)
    ensures
        p.with_type_lock(true).type_locked(),
        !p.with_type_lock(true).with_type_lock(false).type_locked(),
        !p.with_type_lock(true).with_type_lock(false).size_locked(),
        p.with_type_lock(true).with_type_lock(false).name_locked() == p.name_locked(),
        p.with_type_lock(true).with_type_lock(false).this_pointer() == p.this_pointer(),
        p.with_type_lock(true).with_type_lock(false).indirect() == p.indirect(),
        p.with_type_lock(true).with_type_lock(false).hidden_return() == p.hidden_return(),
{
    let f = p.flags;
    assert((f | 16u32) & 16u32 != 0 && ((f | 16u32) | 32u32) & 16u32 != 0) by (bit_vector);
    assert(((f | 16u32) & !(16u32 | 32u32)) & 16u32 == 0) by (bit_vector);
    assert((((f | 16u32) | 32u32) & !(16u32 | 32u32)) & 16u32 == 0) by (bit_vector);
    assert(((f | 16u32) & !(16u32 | 32u32)) & 32u32 == 0) by (bit_vector);
    assert((((f | 16u32) | 32u32) & !(16u32 | 32u32)) & 32u32 == 0) by (bit_vector);
    lemma_lock_keeps(f, pieces::NAMELOCK);
    lemma_lock_keeps(f, pieces::ISTHIS);
    lemma_lock_keeps(f, pieces::INDIRECTSTORAGE);
    lemma_lock_keeps(f, pieces::HIDDENRETPARM);
}

proof fn lemma_lock_keeps(f: u32, n: u32)
    by (bit_vector)
    requires
        n == 1 || n == 2 || n == 4 || n == 8,
    ensures
        ((f | 16u32) & !(16u32 | 32u32)) & n == f & n,
        (((f | 16u32) | 32u32) & !(16u32 | 32u32)) & n == f & n,
{
}

/// The input taken out last leaves the inputs before it as they were.
pub proof fn law_last_input_taken(s: StoreView, nm: Seq<char>, p: ParameterPieces)
    requires
        s.inparam.len() > 0 ==> s.inparam.last() is Some,
    ensures
        s.with_input(s.inparam.len() as int, nm, p).without_input(s.inparam.len() as int) == s,
{
    let n = s.inparam.len() as int;
    assert(padded(s.inparam, n).update(n, Some(made_of(nm, p))).remove(n) =~= s.inparam);
}

/// An input reads back as it was set, and the other inputs are left alone.
pub proof fn law_input_reads_back(
    s: StoreView,
    i: int,
    j: int,
    nm: Seq<char>,
    p: ParameterPieces,
)
    requires
        0 <= i,
        j != i,
    ensures
        s.with_input(i, nm, p).input(i) == Some(made_of(nm, p)),
        s.with_input(i, nm, p).input(j) == s.input(j),
        s.with_input(i, nm, p).outparam == s.outparam,
{
}

} // verus!
