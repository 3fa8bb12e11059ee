//! Prototypes written out as a sequence of tokens: elements with attributes.
use crate::dtype::Datatype;
use crate::effects;
use crate::effects::EffectRecord;
use crate::error::FspecError;
use crate::model;
use crate::proto;
use crate::proto::{FuncProto, ProtoView};
use crate::space::{Address, VarnodeData};
use crate::store::{ParamView, ParameterBasic, ProtoParameter};
use vstd::prelude::*;

verus! {

/// The elements of a prototype.
#[derive(Debug, Clone, Copy, PartialEq, Eq, Structural)]
pub enum Element {
    Prototype,
    ReturnSym,
    Void,
    Unaffected,
    KilledByCall,
    ReturnAddress,
    LikelyTrash,
    Addr,
}

/// The attributes that are there only when they hold.
#[derive(Debug, Clone, Copy, PartialEq, Eq, Structural)]
pub enum Attribute {
    DotDotDot,
    ModelLock,
    VoidLock,
    Inline,
    NoReturn,
    Custom,
    Constructor,
    Destructor,
    TypeLock,
}

/// A part of what is written.
#[derive(Debug)]
pub enum Token {
    Open(Element),
    Close(Element),
    /// The name of the model.
    Model(String),
    /// The number of bytes popped; none where it is unknown.
    ExtraPop(Option<i32>),
    /// An attribute that holds.
    Flag(Attribute),
    /// An address with a size, as an element of its own.
    Storage(Address, i32),
    /// The space, offset and size of the location around.
    Location(VarnodeData),
    /// A reference to a data-type.
    Type(Datatype),
}

/// A part of what is written, in the abstract.
pub enum TokenView {
    Open(Element),
    Close(Element),
    Model(Seq<char>),
    ExtraPop(Option<i32>),
    Flag(Attribute),
    Storage(Address, i32),
    Location(VarnodeData),
    Type(Datatype),
}

impl View for Token {
    type V = TokenView;

    open spec fn view(&self) -> TokenView {
        match *self {
            Token::Open(e) => TokenView::Open(e),
            Token::Close(e) => TokenView::Close(e),
            Token::Model(n) => TokenView::Model(n@),
            Token::ExtraPop(p) => TokenView::ExtraPop(p),
            Token::Flag(a) => TokenView::Flag(a),
            Token::Storage(a, n) => TokenView::Storage(a, n),
            Token::Location(v) => TokenView::Location(v),
            Token::Type(t) => TokenView::Type(t),
        }
    }
}

/// The views of a list of tokens.
pub open spec fn tokens(s: Seq<Token>) -> Seq<TokenView> {
    Seq::new(s.len(), |i: int| s[i]@)
}

/// Writes one token.
fn put(out: &mut Vec<Token>, t: Token)
    ensures
        tokens(final(out)@) == tokens(old(out)@).push(t@),
{
    out.push(t);
    assert(tokens(out@) =~= tokens(old(out)@).push(t@));
}

/// An attribute, if it holds.
pub open spec fn flagged(holds: bool, a: Attribute) -> Seq<TokenView> {
    if holds {
        seq![TokenView::Flag(a)]
    } else {
        Seq::empty()
    }
}

fn put_flag(out: &mut Vec<Token>, holds: bool, a: Attribute)
    ensures
        tokens(final(out)@) == tokens(old(out)@) + flagged(holds, a),
{
    if holds {
        put(out, Token::Flag(a));
    }
    assert(tokens(out@) =~= tokens(old(out)@) + flagged(holds, a));
}

impl EffectRecord {
    /// Has the effect a name.
    pub open spec fn named(self) -> bool {
        self.type_ == effects::UNAFFECTED || self.type_ == effects::KILLEDBYCALL || self.type_
            == effects::RETURN_ADDRESS
    }

    /// The range of the record.
    pub open spec fn token(self) -> TokenView {
        TokenView::Storage(self.range.addr(), self.range.size as i32)
    }

    /// Write the range of the record; only a named effect can be written.
    pub fn encode(&self, out: &mut Vec<Token>) -> (r: Result<(), FspecError>)
        ensures
            if self.named() {
                r is Ok && tokens(final(out)@) == tokens(old(out)@).push(self.token())
            } else {
                r == Err::<(), FspecError>(FspecError::BadEffectType) && final(out)@ == old(out)@
            },
    {
        if self.type_ == effects::UNAFFECTED || self.type_ == effects::KILLEDBYCALL || self.type_
            == effects::RETURN_ADDRESS {
            put(out, Token::Storage(self.range.get_addr(), self.range.size as i32));
            Ok(())
        } else {
            Err(FspecError::BadEffectType)
        }
    }
}

/// The ranges of records.
pub open spec fn record_tokens(s: Seq<EffectRecord>) -> Seq<TokenView> {
    s.map_values(|e: EffectRecord| e.token())
}

/// A group of records under an element, if there are any.
pub open spec fn group_tokens(e: Element, s: Seq<EffectRecord>) -> Seq<TokenView> {
    if s.len() == 0 {
        Seq::empty()
    } else {
        seq![TokenView::Open(e)] + record_tokens(s) + seq![TokenView::Close(e)]
    }
}

/// Writes a group of records.
fn put_group(out: &mut Vec<Token>, e: Element, s: &Vec<EffectRecord>) -> (r: Result<
    (),
    FspecError,
>)
    requires
        forall|i: int| 0 <= i < s@.len() ==> (#[trigger] s@[i]).named(),
    ensures
        r is Ok,
        tokens(final(out)@) == tokens(old(out)@) + group_tokens(e, s@),
{
    let ghost t0 = tokens(out@);
    if s.len() == 0 {
        assert(tokens(out@) =~= t0 + group_tokens(e, s@));
        return Ok(());
    }
    put(out, Token::Open(e));
    let mut i: usize = 0;
    while i < s.len()
        invariant
            i <= s.len(),
            forall|k: int| 0 <= k < s@.len() ==> (#[trigger] s@[k]).named(),
            tokens(out@) =~= t0.push(TokenView::Open(e)) + record_tokens(s@).take(i as int),
        decreases s.len() - i,
    {
        assert(s@[i as int].named());
        let _res = s[i].encode(out);
        assert(record_tokens(s@)[i as int] == s@[i as int].token());
        i += 1;
    }
    put(out, Token::Close(e));
    assert(tokens(out@) =~= t0 + group_tokens(e, s@));
    Ok(())
}

impl ProtoView {
    /// The effect of the model on the range of a record.
    pub open spec fn model_effect(self, e: EffectRecord) -> u32 {
        match self.model {
            Some(m) => effects::effect_at(
                (*m)@.effectlist,
                e.range.addr(),
                (e.range.size as i32) as int,
            ),
            None => effects::UNKNOWN_EFFECT,
        }
    }

    /// The records of one effect among the first `n` that differ from the
    /// model.
    pub open spec fn differing(self, n: int, t: u32) -> Seq<EffectRecord>
        decreases n,
    {
        if n <= 0 || n > self.effectlist.len() {
            Seq::empty()
        } else {
            let before = self.differing(n - 1, t);
            let e = self.effectlist[n - 1];
            if e.type_ == t && self.model_effect(e) != t {
                before.push(e)
            } else {
                before
            }
        }
    }

    /// The records of one effect that differ from the model.
    pub open spec fn all_differing(self, t: u32) -> Seq<EffectRecord> {
        self.differing(self.effectlist.len() as int, t)
    }

    /// The last return address that differs from the model, if there is one.
    pub open spec fn return_record(self) -> Seq<EffectRecord> {
        let s = self.all_differing(effects::RETURN_ADDRESS);
        if s.len() == 0 {
            s
        } else {
            seq![s.last()]
        }
    }

    /// The effects that differ from the model, by kind.
    pub open spec fn effect_tokens(self) -> Seq<TokenView> {
        group_tokens(Element::Unaffected, self.all_differing(effects::UNAFFECTED)) + group_tokens(
            Element::KilledByCall,
            self.all_differing(effects::KILLEDBYCALL),
        ) + group_tokens(Element::ReturnAddress, self.return_record())
    }
}

/// Do two locations stand at the same place in the order of locations.
pub open spec fn same_place(a: VarnodeData, b: VarnodeData) -> bool {
    !a.before(b) && !b.before(a)
}

/// Is a location in a list.
pub open spec fn listed(s: Seq<VarnodeData>, v: VarnodeData) -> bool {
    exists|i: int| 0 <= i < s.len() && same_place(#[trigger] s[i], v)
}

/// One location of a list.
pub open spec fn location_tokens(v: VarnodeData) -> Seq<TokenView> {
    seq![TokenView::Open(Element::Addr)] + (if v.space is Some {
        seq![TokenView::Location(v)]
    } else {
        Seq::empty()
    }) + seq![TokenView::Close(Element::Addr)]
}

impl ProtoView {
    /// The locations without meaning that the model lists.
    pub open spec fn model_trash(self) -> Seq<VarnodeData> {
        match self.model {
            Some(m) => (*m)@.likelytrash,
            None => Seq::empty(),
        }
    }

    /// Those of the first `n` locations without meaning that the model does
    /// not list.
    pub open spec fn own_trash(self, n: int) -> Seq<TokenView>
        decreases n,
    {
        if n <= 0 || n > self.likelytrash.len() {
            Seq::empty()
        } else {
            let before = self.own_trash(n - 1);
            if listed(self.model_trash(), self.likelytrash[n - 1]) {
                before
            } else {
                before + location_tokens(self.likelytrash[n - 1])
            }
        }
    }

    pub open spec fn trash_tokens(self) -> Seq<TokenView> {
        if self.likelytrash.len() == 0 {
            Seq::empty()
        } else {
            seq![TokenView::Open(Element::LikelyTrash)] + self.own_trash(
                self.likelytrash.len() as int,
            ) + seq![TokenView::Close(Element::LikelyTrash)]
        }
    }

    /// The attributes of the prototype.
    pub open spec fn head_tokens(self) -> Seq<TokenView> {
        self.start_tokens() + self.lock_tokens() + self.kind_tokens()
    }

    /// The model and the number of popped bytes.
    pub open spec fn start_tokens(self) -> Seq<TokenView> {
        seq![
            TokenView::Open(Element::Prototype),
            TokenView::Model(
                match self.model {
                    Some(m) => (*m)@.name,
                    None => "default"@,
                },
            ),
            TokenView::ExtraPop(
                if self.extrapop == model::EXTRAPOP_UNKNOWN {
                    None
                } else {
                    Some(self.extrapop)
                },
            ),
        ]
    }

    /// The attributes of the list of parameters.
    pub open spec fn lock_tokens(self) -> Seq<TokenView> {
        flagged(self.flag(proto::DOTDOTDOT), Attribute::DotDotDot) + flagged(
            self.flag(proto::MODELLOCK),
            Attribute::ModelLock,
        ) + flagged(self.flag(proto::VOIDINPUTLOCK), Attribute::VoidLock) + flagged(
            self.flag(proto::IS_INLINE),
            Attribute::Inline,
        )
    }

    /// The attributes of the function.
    pub open spec fn kind_tokens(self) -> Seq<TokenView> {
        flagged(self.flag(proto::NO_RETURN), Attribute::NoReturn) + flagged(
            self.flag(proto::CUSTOM_STORAGE),
            Attribute::Custom,
        ) + flagged(self.flag(proto::IS_CONSTRUCTOR), Attribute::Constructor) + flagged(
            self.flag(proto::IS_DESTRUCTOR),
            Attribute::Destructor,
        )
    }

    /// The whole prototype.
    pub open spec fn proto_tokens(self) -> Seq<TokenView> {
        self.head_tokens() + return_tokens(self.store->0.output()) + self.effect_tokens()
            + self.trash_tokens() + seq![TokenView::Close(Element::Prototype)]
    }
}

/// The return value.
pub open spec fn return_tokens(p: ParamView) -> Seq<TokenView> {
    seq![TokenView::Open(Element::ReturnSym)] + flagged(p.type_locked(), Attribute::TypeLock)
        + seq![TokenView::Storage(p.addr, p.size())] + (match p.type_ {
        Some(t) => seq![TokenView::Type(t)],
        None => seq![TokenView::Open(Element::Void), TokenView::Close(Element::Void)],
    }) + seq![TokenView::Close(Element::ReturnSym)]
}

/// Writes the model and the number of popped bytes.
fn put_start(out: &mut Vec<Token>, p: &FuncProto)
    ensures
        tokens(final(out)@) == tokens(old(out)@) + p@.start_tokens(),
{
    let ghost t0 = tokens(out@);
    put(out, Token::Open(Element::Prototype));
    let name = match &p.model {
        Some(m) => m.get_name().to_owned(),
        None => "default".to_owned(),
    };
    put(out, Token::Model(name));
    let pop = if p.extrapop == model::EXTRAPOP_UNKNOWN {
        None
    } else {
        Some(p.extrapop)
    };
    put(out, Token::ExtraPop(pop));
    assert(tokens(out@) =~= t0 + p@.start_tokens());
}

/// Writes the attributes of the list of parameters.
fn put_lock(out: &mut Vec<Token>, p: &FuncProto)
    ensures
        tokens(final(out)@) == tokens(old(out)@) + p@.lock_tokens(),
{
    let void = crate::num::has_bit(p.flags, proto::VOIDINPUTLOCK);
    put_four(
        out,
        [p.is_dotdotdot(), p.is_model_locked(), void, p.is_inline()],
        [Attribute::DotDotDot, Attribute::ModelLock, Attribute::VoidLock, Attribute::Inline],
    );
}

/// Writes the attributes of the function.
fn put_kind(out: &mut Vec<Token>, p: &FuncProto)
    ensures
        tokens(final(out)@) == tokens(old(out)@) + p@.kind_tokens(),
{
    put_four(
        out,
        [p.is_no_return(), p.has_custom_storage(), p.is_constructor(), p.is_destructor()],
        [Attribute::NoReturn, Attribute::Custom, Attribute::Constructor, Attribute::Destructor],
    );
}

/// Writes what stands before the parts of a prototype.
fn put_head(out: &mut Vec<Token>, p: &FuncProto)
    ensures
        tokens(final(out)@) == tokens(old(out)@) + p@.head_tokens(),
{
    let ghost t0 = tokens(out@);
    put_start(out, p);
    put_lock(out, p);
    put_kind(out, p);
    assert(tokens(out@) =~= t0 + p@.head_tokens());
}

/// Writes those of four attributes that hold.
fn put_four(out: &mut Vec<Token>, holds: [bool; 4], a: [Attribute; 4])
    ensures
        tokens(final(out)@) == tokens(old(out)@) + (flagged(holds@[0], a@[0]) + flagged(
            holds@[1],
            a@[1],
        ) + flagged(holds@[2], a@[2]) + flagged(holds@[3], a@[3])),
{
    let ghost t0 = tokens(out@);
    let ghost f0 = flagged(holds@[0], a@[0]);
    let ghost f1 = flagged(holds@[1], a@[1]);
    let ghost f2 = flagged(holds@[2], a@[2]);
    let ghost f3 = flagged(holds@[3], a@[3]);
    put_flag(out, holds[0], a[0]);
    put_flag(out, holds[1], a[1]);
    assert(tokens(out@) =~= t0 + (f0 + f1));
    put_flag(out, holds[2], a[2]);
    assert(tokens(out@) =~= t0 + (f0 + f1 + f2));
    put_flag(out, holds[3], a[3]);
    assert(tokens(out@) =~= t0 + (f0 + f1 + f2 + f3));
}

/// Writes the return value.
fn put_return(out: &mut Vec<Token>, p: &ParameterBasic)
    ensures
        tokens(final(out)@) == tokens(old(out)@) + return_tokens(p@),
{
    let ghost t0 = tokens(out@);
    put(out, Token::Open(Element::ReturnSym));
    put_flag(out, p.is_type_locked(), Attribute::TypeLock);
    put(out, Token::Storage(p.get_address(), p.get_size()));
    match p.get_type() {
        Some(t) => {
            put(out, Token::Type(t));
        },
        None => {
            put(out, Token::Open(Element::Void));
            put(out, Token::Close(Element::Void));
        },
    }
    put(out, Token::Close(Element::ReturnSym));
    assert(tokens(out@) =~= t0 + return_tokens(p@));
}

fn is_listed(s: &[VarnodeData], v: &VarnodeData) -> (r: bool)
    ensures
        r == listed(s@, *v),
{
    let mut i: usize = 0;
    while i < s.len()
        invariant
            i <= s.len(),
            forall|k: int| 0 <= k < i ==> !same_place(#[trigger] s@[k], *v),
        decreases s.len() - i,
    {
        if !s[i].is_before(v) && !v.is_before(&s[i]) {
            assert(same_place(s@[i as int], *v));
            return true;
        }
        i += 1;
    }
    false
}

/// Records of one effect have a name.
proof fn lemma_differing_named(p: ProtoView, n: int, t: u32)
    requires
        t == effects::UNAFFECTED || t == effects::KILLEDBYCALL || t == effects::RETURN_ADDRESS,
    ensures
        forall|i: int| 0 <= i < p.differing(n, t).len() ==> (#[trigger] p.differing(n, t)[i]).named(),
    decreases n,
{
    if n > 0 {
        lemma_differing_named(p, n - 1, t);
        let before = p.differing(n - 1, t);
        let now = p.differing(n, t);
        assert forall|i: int| 0 <= i < now.len() implies (#[trigger] now[i]).named() by {
            if i < before.len() {
                assert(now[i] == before[i]);
            }
        }
    }
}

impl FuncProto {
    /// Write the effects that differ from the model, by kind.
    fn encode_effect(&self, out: &mut Vec<Token>) -> (r: Result<(), FspecError>)
        requires
            self@.model matches Some(m) ==> effects::by_address((*m)@.effectlist),
        ensures
            r is Ok,
            tokens(final(out)@) == tokens(old(out)@) + self@.effect_tokens(),
    {
        let ghost p = self@;
        let mut unaffected: Vec<EffectRecord> = Vec::new();
        let mut killed: Vec<EffectRecord> = Vec::new();
        let mut ret_addr: Vec<EffectRecord> = Vec::new();
        let mut i: usize = 0;
        assert(unaffected@ =~= Seq::empty());
        assert(killed@ =~= Seq::empty());
        assert(ret_addr@ =~= Seq::empty());
        while i < self.effectlist.len()
            invariant
                i <= self.effectlist.len(),
                p == self@,
                p.model matches Some(m) ==> effects::by_address((*m)@.effectlist),
                unaffected@ == p.differing(i as int, effects::UNAFFECTED),
                killed@ == p.differing(i as int, effects::KILLEDBYCALL),
                ret_addr@ == p.differing(i as int, effects::RETURN_ADDRESS),
            decreases self.effectlist.len() - i,
        {
            let cur = self.effectlist[i];
            assert(cur == p.effectlist[i as int]);
            let tp: u32 = match &self.model {
                Some(m) => m.has_effect(&cur.get_address(), cur.get_size()),
                None => effects::UNKNOWN_EFFECT,
            };
            assert(tp == p.model_effect(cur));
            if tp != cur.type_ {
                if cur.type_ == effects::UNAFFECTED {
                    unaffected.push(cur);
                } else if cur.type_ == effects::KILLEDBYCALL {
                    killed.push(cur);
                } else if cur.type_ == effects::RETURN_ADDRESS {
                    ret_addr.push(cur);
                }
            }
            i += 1;
        }
        let ghost n = p.effectlist.len() as int;
        proof {
            lemma_differing_named(p, n, effects::UNAFFECTED);
            lemma_differing_named(p, n, effects::KILLEDBYCALL);
            lemma_differing_named(p, n, effects::RETURN_ADDRESS);
        }
        let ghost t0 = tokens(out@);
        let mut last: Vec<EffectRecord> = Vec::new();
        if ret_addr.len() > 0 {
            last.push(ret_addr[ret_addr.len() - 1]);
        }
        assert(last@ =~= p.return_record());
        let _a = put_group(out, Element::Unaffected, &unaffected);
        let _b = put_group(out, Element::KilledByCall, &killed);
        let _c = put_group(out, Element::ReturnAddress, &last);
        assert(tokens(out@) =~= t0 + p.effect_tokens());
        Ok(())
    }

    /// Write the locations without meaning that the model does not list.
    fn encode_likely_trash(&self, out: &mut Vec<Token>) -> (r: Result<(), FspecError>)
        ensures
            r is Ok,
            tokens(final(out)@) == tokens(old(out)@) + self@.trash_tokens(),
    {
        let ghost p = self@;
        let ghost t0 = tokens(out@);
        if self.likelytrash.len() == 0 {
            assert(tokens(out@) =~= t0 + p.trash_tokens());
            return Ok(());
        }
        put(out, Token::Open(Element::LikelyTrash));
        let ghost t1 = tokens(out@);
        assert(t1 + p.own_trash(0) =~= t1);
        let mut i: usize = 0;
        while i < self.likelytrash.len()
            invariant
                i <= self.likelytrash.len(),
                p == self@,
                tokens(out@) == t1 + p.own_trash(i as int),
            decreases self.likelytrash.len() - i,
        {
            let cur = self.likelytrash[i];
            assert(cur == p.likelytrash[i as int]);
            let ghost t2 = tokens(out@);
            let known = match &self.model {
                Some(m) => is_listed(m.trash_list(), &cur),
                None => false,
            };
            assert(known == listed(p.model_trash(), cur));
            if !known {
                put(out, Token::Open(Element::Addr));
                if cur.space.is_some() {
                    put(out, Token::Location(cur));
                }
                put(out, Token::Close(Element::Addr));
                assert(tokens(out@) =~= t2 + location_tokens(cur));
            }
            assert(tokens(out@) =~= t1 + p.own_trash(i + 1));
            i += 1;
        }
        put(out, Token::Close(Element::LikelyTrash));
        assert(tokens(out@) =~= t0 + p.trash_tokens());
        Ok(())
    }

    /// Write the prototype: its model, number of popped bytes and properties,
    /// the return value, and the effects and locations without meaning in
    /// which it differs from its model. Without a collection of parameters
    /// this fails behind the properties.
    pub fn encode(&self, out: &mut Vec<Token>) -> (r: Result<(), FspecError>)
        requires
            self@.model matches Some(m) ==> effects::by_address((*m)@.effectlist),
            self@.store matches Some(s) ==> s.outparam is Some,
        ensures
            match self@.store {
                Some(s) => r is Ok && tokens(final(out)@) == tokens(old(out)@)
                    + self@.proto_tokens(),
                None => r == Err::<(), FspecError>(FspecError::NoStore) && tokens(final(out)@)
                    == tokens(old(out)@) + self@.head_tokens(),
            },
    {
        let ghost t0 = tokens(out@);
        put_head(out, self);
        if !self.has_store() {
            return Err(FspecError::NoStore);
        }
        put_return(out, self.get_output());
        let _a = self.encode_effect(out);
        let _b = self.encode_likely_trash(out);
        put(out, Token::Close(Element::Prototype));
        assert(tokens(out@) =~= t0 + self@.proto_tokens());
        Ok(())
    }
}

/// A prototype that only repeats the effects of its model writes none.
pub proof fn law_model_effects_not_written(p: ProtoView)
    requires
        forall|i: int|
            0 <= i < p.effectlist.len() ==> p.model_effect(#[trigger] p.effectlist[i])
                == p.effectlist[i].type_,
    ensures
        p.effect_tokens() == Seq::<TokenView>::empty(),
{
    lemma_none_differing(p, p.effectlist.len() as int, effects::UNAFFECTED);
    lemma_none_differing(p, p.effectlist.len() as int, effects::KILLEDBYCALL);
    lemma_none_differing(p, p.effectlist.len() as int, effects::RETURN_ADDRESS);
    assert(p.effect_tokens() =~= Seq::<TokenView>::empty());
}

proof fn lemma_none_differing(p: ProtoView, n: int, t: u32)
    requires
        forall|i: int|
            0 <= i < p.effectlist.len() ==> p.model_effect(#[trigger] p.effectlist[i])
                == p.effectlist[i].type_,
    ensures
        p.differing(n, t).len() == 0,
    decreases n,
{
    if n > 0 {
        lemma_none_differing(p, n - 1, t);
    }
}

/// The elements left open after the tokens, `open` being those open before;
/// none if an element is closed that was not opened last.
pub open spec fn left_open(s: Seq<TokenView>, open: Seq<Element>) -> Option<Seq<Element>>
    decreases s.len(),
{
    if s.len() == 0 {
        Some(open)
    } else {
        match left_open(s.drop_last(), open) {
            None => None,
            Some(o) => match s.last() {
                TokenView::Open(e) => Some(o.push(e)),
                TokenView::Close(e) => if o.len() > 0 && o.last() == e {
                    Some(o.drop_last())
                } else {
                    None
                },
                _ => Some(o),
            },
        }
    }
}

/// Every element that the tokens open they also close, in order.
pub open spec fn balanced(s: Seq<TokenView>) -> bool {
    forall|open: Seq<Element>| #[trigger] left_open(s, open) == Some(open)
}

proof fn lemma_left_open_joined(a: Seq<TokenView>, b: Seq<TokenView>, open: Seq<Element>)
    ensures
        left_open(a + b, open) == (match left_open(a, open) {
            Some(o) => left_open(b, o),
            None => None,
        }),
    decreases b.len(),
{
    if b.len() == 0 {
        assert(a + b =~= a);
    } else {
        lemma_left_open_joined(a, b.drop_last(), open);
        assert((a + b).drop_last() =~= a + b.drop_last());
    }
}

proof fn lemma_balanced_joined(a: Seq<TokenView>, b: Seq<TokenView>)
    requires
        balanced(a),
        balanced(b),
    ensures
        balanced(a + b),
{
    assert forall|open: Seq<Element>| #[trigger] left_open(a + b, open) == Some(open) by {
        lemma_left_open_joined(a, b, open);
    }
}

/// Tokens that open and close nothing.
spec fn flat(s: Seq<TokenView>) -> bool {
    forall|k: int| 0 <= k < s.len() ==> !(#[trigger] s[k] is Open) && !(s[k] is Close)
}

proof fn lemma_flat(s: Seq<TokenView>, open: Seq<Element>)
    requires
        flat(s),
    ensures
        left_open(s, open) == Some(open),
    decreases s.len(),
{
    if s.len() > 0 {
        lemma_flat(s.drop_last(), open);
    }
}

proof fn lemma_flat_balanced(s: Seq<TokenView>)
    requires
        flat(s),
    ensures
        balanced(s),
{
    assert forall|open: Seq<Element>| #[trigger] left_open(s, open) == Some(open) by {
        lemma_flat(s, open);
    }
}

/// Balanced tokens under an element.
proof fn lemma_wrapped(e: Element, s: Seq<TokenView>)
    requires
        balanced(s),
    ensures
        balanced(seq![TokenView::Open(e)] + s + seq![TokenView::Close(e)]),
{
    let head = seq![TokenView::Open(e)];
    let tail = seq![TokenView::Close(e)];
    assert forall|open: Seq<Element>| #[trigger]
        left_open(head + s + tail, open) == Some(open) by {
        lemma_left_open_joined(head + s, tail, open);
        lemma_left_open_joined(head, s, open);
        reveal_with_fuel(left_open, 2);
        assert(head.drop_last() =~= Seq::empty());
        assert(tail.drop_last() =~= Seq::empty());
        assert(left_open(head, open) == Some(open.push(e)));
        assert(open.push(e).drop_last() =~= open);
    }
}

proof fn lemma_group_balanced(e: Element, s: Seq<EffectRecord>)
    ensures
        balanced(group_tokens(e, s)),
{
    if s.len() == 0 {
        lemma_flat_balanced(Seq::empty());
    } else {
        lemma_flat_balanced(record_tokens(s));
        lemma_wrapped(e, record_tokens(s));
    }
}

proof fn lemma_trash_balanced(p: ProtoView, n: int)
    ensures
        balanced(p.own_trash(n)),
    decreases n,
{
    if n <= 0 || n > p.likelytrash.len() {
        lemma_flat_balanced(Seq::empty());
    } else {
        lemma_trash_balanced(p, n - 1);
        let v = p.likelytrash[n - 1];
        let inner = if v.space is Some {
            seq![TokenView::Location(v)]
        } else {
            Seq::empty()
        };
        lemma_flat_balanced(inner);
        lemma_wrapped(Element::Addr, inner);
        lemma_balanced_joined(p.own_trash(n - 1), location_tokens(v));
    }
}

proof fn lemma_return_balanced(p: ParamView)
    ensures
        balanced(return_tokens(p)),
{
    let lock = flagged(p.type_locked(), Attribute::TypeLock);
    let place = seq![TokenView::Storage(p.addr, p.size())];
    let kind = match p.type_ {
        Some(t) => seq![TokenView::Type(t)],
        None => seq![TokenView::Open(Element::Void), TokenView::Close(Element::Void)],
    };
    lemma_flat_balanced(lock + place);
    match p.type_ {
        Some(t) => lemma_flat_balanced(kind),
        None => {
            lemma_flat_balanced(Seq::empty());
            lemma_wrapped(Element::Void, Seq::empty());
            assert(kind =~= seq![TokenView::Open(Element::Void)] + Seq::<TokenView>::empty()
                + seq![TokenView::Close(Element::Void)]);
        },
    }
    lemma_balanced_joined(lock + place, kind);
    lemma_wrapped(Element::ReturnSym, lock + place + kind);
    assert(return_tokens(p) =~= seq![TokenView::Open(Element::ReturnSym)] + (lock + place + kind)
        + seq![TokenView::Close(Element::ReturnSym)]);
}

proof fn lemma_effects_balanced(p: ProtoView)
    ensures
        balanced(p.effect_tokens()),
{
    let a = group_tokens(Element::Unaffected, p.all_differing(effects::UNAFFECTED));
    let b = group_tokens(Element::KilledByCall, p.all_differing(effects::KILLEDBYCALL));
    let c = group_tokens(Element::ReturnAddress, p.return_record());
    lemma_group_balanced(Element::Unaffected, p.all_differing(effects::UNAFFECTED));
    lemma_group_balanced(Element::KilledByCall, p.all_differing(effects::KILLEDBYCALL));
    lemma_group_balanced(Element::ReturnAddress, p.return_record());
    lemma_balanced_joined(a, b);
    lemma_balanced_joined(a + b, c);
}

proof fn lemma_trash_tokens_balanced(p: ProtoView)
    ensures
        balanced(p.trash_tokens()),
{
    lemma_trash_balanced(p, p.likelytrash.len() as int);
    if p.likelytrash.len() == 0 {
        lemma_flat_balanced(Seq::empty());
    } else {
        lemma_wrapped(Element::LikelyTrash, p.own_trash(p.likelytrash.len() as int));
    }
}

/// The attributes of a prototype, without the element that they belong to.
spec fn attributes(p: ProtoView) -> Seq<TokenView> {
    p.start_tokens().skip(1) + p.lock_tokens() + p.kind_tokens()
}

proof fn lemma_attributes_balanced(p: ProtoView)
    ensures
        balanced(attributes(p)),
{
    lemma_flat_balanced(p.start_tokens().skip(1));
    lemma_flat_balanced(p.lock_tokens());
    lemma_flat_balanced(p.kind_tokens());
    lemma_balanced_joined(p.start_tokens().skip(1), p.lock_tokens());
    lemma_balanced_joined(p.start_tokens().skip(1) + p.lock_tokens(), p.kind_tokens());
}

proof fn lemma_body(p: ProtoView)
    ensures
        p.proto_tokens() == seq![TokenView::Open(Element::Prototype)] + (attributes(p)
            + return_tokens(p.store->0.output()) + p.effect_tokens() + p.trash_tokens())
            + seq![TokenView::Close(Element::Prototype)],
{
    let head = seq![TokenView::Open(Element::Prototype)];
    assert(p.start_tokens() =~= head + p.start_tokens().skip(1));
    assert(p.head_tokens() =~= head + attributes(p));
    let ret = return_tokens(p.store->0.output());
    let rest = p.effect_tokens();
    let trash = p.trash_tokens();
    let tail = seq![TokenView::Close(Element::Prototype)];
    lemma_regrouped(head, attributes(p), ret, rest, trash, tail);
}

proof fn lemma_regrouped(
    a: Seq<TokenView>,
    b: Seq<TokenView>,
    c: Seq<TokenView>,
    d: Seq<TokenView>,
    e: Seq<TokenView>,
    f: Seq<TokenView>,
)
    ensures
        (a + b) + c + d + e + f == a + (b + c + d + e) + f,
{
    assert((a + b) + c + d + e + f =~= a + (b + c + d + e) + f);
}

/// A prototype is written with every element closed that is opened, in order.
pub proof fn law_encoding_balanced(p: ProtoView)
    ensures
        balanced(p.proto_tokens()),
{
    let ret = return_tokens(p.store->0.output());
    lemma_attributes_balanced(p);
    lemma_return_balanced(p.store->0.output());
    lemma_effects_balanced(p);
    lemma_trash_tokens_balanced(p);
    let start = attributes(p) + ret;
    lemma_balanced_joined(attributes(p), ret);
    lemma_balanced_joined(start, p.effect_tokens());
    lemma_balanced_joined(start + p.effect_tokens(), p.trash_tokens());
    lemma_wrapped(Element::Prototype, start + p.effect_tokens() + p.trash_tokens());
    lemma_body(p);
}

} // verus!
