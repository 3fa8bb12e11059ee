//! The steps of prototype recovery as named actions, each in a group that can
//! be turned on and off.
use vstd::prelude::*;

verus! {

/// The action is applied once per function.
pub const RULE_ONCEPERFUNC: u32 = 8;

/// The name, group and properties of an action, and the number of changes that
/// it made.
#[derive(Debug)]
pub struct ActionBase {
    pub flags: u32,
    pub name: String,
    pub group: String,
    pub count: u64,
}

/// What identifies an action, in the abstract.
#[verifier::ext_equal]
pub struct BaseView {
    pub flags: u32,
    pub name: Seq<char>,
    pub group: Seq<char>,
    pub count: u64,
}

impl View for ActionBase {
    type V = BaseView;

    open spec fn view(&self) -> BaseView {
        BaseView { flags: self.flags, name: self.name@, group: self.group@, count: self.count }
    }
}

impl ActionBase {
    pub fn new(flags: u32, name: &str, group: &str) -> (r: ActionBase)
        ensures
            r@ == (BaseView { flags, name: name@, group: group@, count: 0 }),
    {
        ActionBase { flags, name: name.to_owned(), group: group.to_owned(), count: 0 }
    }

    pub fn copy(&self) -> (r: ActionBase)
        ensures
            r@ == self@,
    {
        ActionBase {
            flags: self.flags,
            name: self.name.as_str().to_owned(),
            group: self.group.as_str().to_owned(),
            count: self.count,
        }
    }

    /// Note `n` more changes.
    pub fn note(&mut self, n: u128)
        requires
            n <= u128::MAX - u64::MAX,
        ensures
            final(self)@ == old(self)@.noted(n as int),
    {
        self.count = ((self.count as u128 + n) % 0x1_0000_0000_0000_0000) as u64;
    }
}

impl BaseView {
    /// With `n` more changes.
    pub open spec fn noted(self, n: int) -> BaseView {
        BaseView { count: ((self.count + n) % crate::num::pow64()) as u64, ..self }
    }
}

/// The groups that are turned on.
#[derive(Debug)]
pub struct ActionGroupList {
    pub names: Vec<String>,
}

impl ActionGroupList {
    /// Is the group turned on.
    pub open spec fn has(self, nm: Seq<char>) -> bool {
        exists|i: int| 0 <= i < self.names@.len() && (#[trigger] self.names@[i])@ == nm
    }

    pub fn from_names(names: Vec<String>) -> (r: ActionGroupList)
        ensures
            r.names@ == names@,
    {
        ActionGroupList { names }
    }

    pub fn contains(&self, nm: &str) -> (r: bool)
        ensures
            r == self.has(nm@),
    {
        let wanted = nm.to_owned();
        let mut i: usize = 0;
        while i < self.names.len()
            invariant
                i <= self.names.len(),
                wanted@ == nm@,
                forall|k: int| 0 <= k < i ==> (#[trigger] self.names@[k])@ != nm@,
            decreases self.names.len() - i,
        {
            if self.names[i] == wanted {
                return true;
            }
            i += 1;
        }
        false
    }
}

/// A step of the analysis.
pub trait Action: Sized {
    spec fn info(&self) -> BaseView;

    fn base(&self) -> (r: &ActionBase)
        ensures
            r@ == self.info(),
    ;

    /// A copy, if the group of the action is turned on.
    fn clone_filtered(&self, grouplist: &ActionGroupList) -> (r: Option<Self>)
        ensures
            match r {
                Some(a) => grouplist.has(self.info().group) && a.info() == self.info(),
                None => !grouplist.has(self.info().group),
            },
    ;

    fn get_name(&self) -> (r: &str)
        ensures
            r@ == self.info().name,
    {
        self.base().name.as_str()
    }

    fn get_group(&self) -> (r: &str)
        ensures
            r@ == self.info().group,
    {
        self.base().group.as_str()
    }
}

/// Sets up the inputs and outputs that the prototype of the function forces.
#[derive(Debug)]
pub struct ActionPrototypeTypes {
    pub base: ActionBase,
}

impl ActionPrototypeTypes {
    pub fn boxed(g: &str) -> (r: Box<ActionPrototypeTypes>)
        ensures
            r.info() == (BaseView {
                flags: RULE_ONCEPERFUNC,
                name: "prototypetypes"@,
                group: g@,
                count: 0,
            }),
    {
        Box::new(ActionPrototypeTypes { base: ActionBase::new(RULE_ONCEPERFUNC, "prototypetypes", g) })
    }
}

impl Action for ActionPrototypeTypes {
    open spec fn info(&self) -> BaseView {
        self.base@
    }

    fn base(&self) -> (r: &ActionBase) {
        &self.base
    }

    fn clone_filtered(&self, grouplist: &ActionGroupList) -> (r: Option<ActionPrototypeTypes>)
    {
        if !grouplist.contains(self.base.group.as_str()) {
            return None;
        }
        Some(ActionPrototypeTypes { base: self.base.copy() })
    }
}

/// Finds a prototype for each called function.
#[derive(Debug)]
pub struct ActionDefaultParams {
    pub base: ActionBase,
}

impl ActionDefaultParams {
    pub fn boxed(g: &str) -> (r: Box<ActionDefaultParams>)
        ensures
            r.info() == (BaseView {
                flags: RULE_ONCEPERFUNC,
                name: "defaultparams"@,
                group: g@,
                count: 0,
            }),
    {
        Box::new(ActionDefaultParams { base: ActionBase::new(RULE_ONCEPERFUNC, "defaultparams", g) })
    }
}

impl Action for ActionDefaultParams {
    open spec fn info(&self) -> BaseView {
        self.base@
    }

    fn base(&self) -> (r: &ActionBase) {
        &self.base
    }

    fn clone_filtered(&self, grouplist: &ActionGroupList) -> (r: Option<ActionDefaultParams>)
    {
        if !grouplist.contains(self.base.group.as_str()) {
            return None;
        }
        Some(ActionDefaultParams { base: self.base.copy() })
    }
}

/// Relates the stack pointer before and after each call. `stackspace` is the
/// index of the stack space, if there is one.
#[derive(Debug)]
pub struct ActionExtraPopSetup {
    pub base: ActionBase,
    pub stackspace: Option<i32>,
}

impl ActionExtraPopSetup {
    pub fn boxed(g: &str, ss: Option<i32>) -> (r: Box<ActionExtraPopSetup>)
        ensures
            r.info() == (BaseView {
                flags: RULE_ONCEPERFUNC,
                name: "extrapopsetup"@,
                group: g@,
                count: 0,
            }),
            r.stackspace == ss,
    {
        Box::new(
            ActionExtraPopSetup {
                base: ActionBase::new(RULE_ONCEPERFUNC, "extrapopsetup", g),
                stackspace: ss,
            },
        )
    }
}

impl Action for ActionExtraPopSetup {
    open spec fn info(&self) -> BaseView {
        self.base@
    }

    fn base(&self) -> (r: &ActionBase) {
        &self.base
    }

    fn clone_filtered(&self, grouplist: &ActionGroupList) -> (r: Option<ActionExtraPopSetup>)
        ensures
            r matches Some(a) ==> a.stackspace == self.stackspace,
    {
        if !grouplist.contains(self.base.group.as_str()) {
            return None;
        }
        Some(ActionExtraPopSetup { base: self.base.copy(), stackspace: self.stackspace })
    }
}

/// Sets up the inputs and the output of each call.
#[derive(Debug)]
pub struct ActionFuncLink {
    pub base: ActionBase,
}

impl ActionFuncLink {
    pub fn boxed(g: &str) -> (r: Box<ActionFuncLink>)
        ensures
            r.info() == (BaseView {
                flags: RULE_ONCEPERFUNC,
                name: "funclink"@,
                group: g@,
                count: 0,
            }),
    {
        Box::new(ActionFuncLink { base: ActionBase::new(RULE_ONCEPERFUNC, "funclink", g) })
    }
}

impl Action for ActionFuncLink {
    open spec fn info(&self) -> BaseView {
        self.base@
    }

    fn base(&self) -> (r: &ActionBase) {
        &self.base
    }

    fn clone_filtered(&self, grouplist: &ActionGroupList) -> (r: Option<ActionFuncLink>)
    {
        if !grouplist.contains(self.base.group.as_str()) {
            return None;
        }
        Some(ActionFuncLink { base: self.base.copy() })
    }
}

/// Sets up the output of each call.
#[derive(Debug)]
pub struct ActionFuncLinkOutOnly {
    pub base: ActionBase,
}

impl ActionFuncLinkOutOnly {
    pub fn boxed(g: &str) -> (r: Box<ActionFuncLinkOutOnly>)
        ensures
            r.info() == (BaseView {
                flags: RULE_ONCEPERFUNC,
                name: "funclink_outonly"@,
                group: g@,
                count: 0,
            }),
    {
        Box::new(ActionFuncLinkOutOnly { base: ActionBase::new(RULE_ONCEPERFUNC, "funclink_outonly", g) })
    }
}

impl Action for ActionFuncLinkOutOnly {
    open spec fn info(&self) -> BaseView {
        self.base@
    }

    fn base(&self) -> (r: &ActionBase) {
        &self.base
    }

    fn clone_filtered(&self, grouplist: &ActionGroupList) -> (r: Option<ActionFuncLinkOutOnly>)
    {
        if !grouplist.contains(self.base.group.as_str()) {
            return None;
        }
        Some(ActionFuncLinkOutOnly { base: self.base.copy() })
    }
}

/// Deals with parameters in two pieces.
#[derive(Debug)]
pub struct ActionParamDouble {
    pub base: ActionBase,
}

impl ActionParamDouble {
    pub fn boxed(g: &str) -> (r: Box<ActionParamDouble>)
        ensures
            r.info() == (BaseView {
                flags: 0,
                name: "paramdouble"@,
                group: g@,
                count: 0,
            }),
    {
        Box::new(ActionParamDouble { base: ActionBase::new(0, "paramdouble", g) })
    }
}

impl Action for ActionParamDouble {
    open spec fn info(&self) -> BaseView {
        self.base@
    }

    fn base(&self) -> (r: &ActionBase) {
        &self.base
    }

    fn clone_filtered(&self, grouplist: &ActionGroupList) -> (r: Option<ActionParamDouble>)
    {
        if !grouplist.contains(self.base.group.as_str()) {
            return None;
        }
        Some(ActionParamDouble { base: self.base.copy() })
    }
}

/// Decides which inputs of calls are parameters.
#[derive(Debug)]
pub struct ActionActiveParam {
    pub base: ActionBase,
}

impl ActionActiveParam {
    pub fn boxed(g: &str) -> (r: Box<ActionActiveParam>)
        ensures
            r.info() == (BaseView {
                flags: 0,
                name: "activeparam"@,
                group: g@,
                count: 0,
            }),
    {
        Box::new(ActionActiveParam { base: ActionBase::new(0, "activeparam", g) })
    }
}

impl Action for ActionActiveParam {
    open spec fn info(&self) -> BaseView {
        self.base@
    }

    fn base(&self) -> (r: &ActionBase) {
        &self.base
    }

    fn clone_filtered(&self, grouplist: &ActionGroupList) -> (r: Option<ActionActiveParam>)
    {
        if !grouplist.contains(self.base.group.as_str()) {
            return None;
        }
        Some(ActionActiveParam { base: self.base.copy() })
    }
}

/// Decides which outputs of calls are return values.
#[derive(Debug)]
pub struct ActionActiveReturn {
    pub base: ActionBase,
}

impl ActionActiveReturn {
    pub fn boxed(g: &str) -> (r: Box<ActionActiveReturn>)
        ensures
            r.info() == (BaseView {
                flags: 0,
                name: "activereturn"@,
                group: g@,
                count: 0,
            }),
    {
        Box::new(ActionActiveReturn { base: ActionBase::new(0, "activereturn", g) })
    }
}

impl Action for ActionActiveReturn {
    open spec fn info(&self) -> BaseView {
        self.base@
    }

    fn base(&self) -> (r: &ActionBase) {
        &self.base
    }

    fn clone_filtered(&self, grouplist: &ActionGroupList) -> (r: Option<ActionActiveReturn>)
    {
        if !grouplist.contains(self.base.group.as_str()) {
            return None;
        }
        Some(ActionActiveReturn { base: self.base.copy() })
    }
}

/// Finds the return value of the function.
#[derive(Debug)]
pub struct ActionReturnRecovery {
    pub base: ActionBase,
}

impl ActionReturnRecovery {
    pub fn boxed(g: &str) -> (r: Box<ActionReturnRecovery>)
        ensures
            r.info() == (BaseView {
                flags: 0,
                name: "returnrecovery"@,
                group: g@,
                count: 0,
            }),
    {
        Box::new(ActionReturnRecovery { base: ActionBase::new(0, "returnrecovery", g) })
    }
}

impl Action for ActionReturnRecovery {
    open spec fn info(&self) -> BaseView {
        self.base@
    }

    fn base(&self) -> (r: &ActionBase) {
        &self.base
    }

    fn clone_filtered(&self, grouplist: &ActionGroupList) -> (r: Option<ActionReturnRecovery>)
    {
        if !grouplist.contains(self.base.group.as_str()) {
            return None;
        }
        Some(ActionReturnRecovery { base: self.base.copy() })
    }
}

/// Rules out storage for local variables.
#[derive(Debug)]
pub struct ActionRestrictLocal {
    pub base: ActionBase,
}

impl ActionRestrictLocal {
    pub fn boxed(g: &str) -> (r: Box<ActionRestrictLocal>)
        ensures
            r.info() == (BaseView {
                flags: 0,
                name: "restrictlocal"@,
                group: g@,
                count: 0,
            }),
    {
        Box::new(ActionRestrictLocal { base: ActionBase::new(0, "restrictlocal", g) })
    }
}

impl Action for ActionRestrictLocal {
    open spec fn info(&self) -> BaseView {
        self.base@
    }

    fn base(&self) -> (r: &ActionBase) {
        &self.base
    }

    fn clone_filtered(&self, grouplist: &ActionGroupList) -> (r: Option<ActionRestrictLocal>)
    {
        if !grouplist.contains(self.base.group.as_str()) {
            return None;
        }
        Some(ActionRestrictLocal { base: self.base.copy() })
    }
}

/// Derives the inputs of the function.
#[derive(Debug)]
pub struct ActionInputPrototype {
    pub base: ActionBase,
}

impl ActionInputPrototype {
    pub fn boxed(g: &str) -> (r: Box<ActionInputPrototype>)
        ensures
            r.info() == (BaseView {
                flags: RULE_ONCEPERFUNC,
                name: "inputprototype"@,
                group: g@,
                count: 0,
            }),
    {
        Box::new(ActionInputPrototype { base: ActionBase::new(RULE_ONCEPERFUNC, "inputprototype", g) })
    }
}

impl Action for ActionInputPrototype {
    open spec fn info(&self) -> BaseView {
        self.base@
    }

    fn base(&self) -> (r: &ActionBase) {
        &self.base
    }

    fn clone_filtered(&self, grouplist: &ActionGroupList) -> (r: Option<ActionInputPrototype>)
    {
        if !grouplist.contains(self.base.group.as_str()) {
            return None;
        }
        Some(ActionInputPrototype { base: self.base.copy() })
    }
}

/// Sets the return type of the function.
#[derive(Debug)]
pub struct ActionOutputPrototype {
    pub base: ActionBase,
}

impl ActionOutputPrototype {
    pub fn boxed(g: &str) -> (r: Box<ActionOutputPrototype>)
        ensures
            r.info() == (BaseView {
                flags: RULE_ONCEPERFUNC,
                name: "outputprototype"@,
                group: g@,
                count: 0,
            }),
    {
        Box::new(ActionOutputPrototype { base: ActionBase::new(RULE_ONCEPERFUNC, "outputprototype", g) })
    }
}

impl Action for ActionOutputPrototype {
    open spec fn info(&self) -> BaseView {
        self.base@
    }

    fn base(&self) -> (r: &ActionBase) {
        &self.base
    }

    fn clone_filtered(&self, grouplist: &ActionGroupList) -> (r: Option<ActionOutputPrototype>)
    {
        if !grouplist.contains(self.base.group.as_str()) {
            return None;
        }
        Some(ActionOutputPrototype { base: self.base.copy() })
    }
}

/// Warns about prototypes.
#[derive(Debug)]
pub struct ActionPrototypeWarnings {
    pub base: ActionBase,
}

impl ActionPrototypeWarnings {
    pub fn boxed(g: &str) -> (r: Box<ActionPrototypeWarnings>)
        ensures
            r.info() == (BaseView {
                flags: RULE_ONCEPERFUNC,
                name: "prototypewarnings"@,
                group: g@,
                count: 0,
            }),
    {
        Box::new(ActionPrototypeWarnings { base: ActionBase::new(RULE_ONCEPERFUNC, "prototypewarnings", g) })
    }
}

impl Action for ActionPrototypeWarnings {
    open spec fn info(&self) -> BaseView {
        self.base@
    }

    fn base(&self) -> (r: &ActionBase) {
        &self.base
    }

    fn clone_filtered(&self, grouplist: &ActionGroupList) -> (r: Option<ActionPrototypeWarnings>)
    {
        if !grouplist.contains(self.base.group.as_str()) {
            return None;
        }
        Some(ActionPrototypeWarnings { base: self.base.copy() })
    }
}

/// One of the actions of prototype recovery.
#[derive(Debug)]
pub enum ProtoAction {
    PrototypeTypes(Box<ActionPrototypeTypes>),
    DefaultParams(Box<ActionDefaultParams>),
    FuncLink(Box<ActionFuncLink>),
    FuncLinkOutOnly(Box<ActionFuncLinkOutOnly>),
    ParamDouble(Box<ActionParamDouble>),
    ActiveParam(Box<ActionActiveParam>),
    ActiveReturn(Box<ActionActiveReturn>),
    ReturnRecovery(Box<ActionReturnRecovery>),
    RestrictLocal(Box<ActionRestrictLocal>),
    InputPrototype(Box<ActionInputPrototype>),
    OutputPrototype(Box<ActionOutputPrototype>),
    PrototypeWarnings(Box<ActionPrototypeWarnings>),
}

impl ProtoAction {
    pub open spec fn info(self) -> BaseView {
        match self {
            ProtoAction::PrototypeTypes(a) => a.info(),
            ProtoAction::DefaultParams(a) => a.info(),
            ProtoAction::FuncLink(a) => a.info(),
            ProtoAction::FuncLinkOutOnly(a) => a.info(),
            ProtoAction::ParamDouble(a) => a.info(),
            ProtoAction::ActiveParam(a) => a.info(),
            ProtoAction::ActiveReturn(a) => a.info(),
            ProtoAction::ReturnRecovery(a) => a.info(),
            ProtoAction::RestrictLocal(a) => a.info(),
            ProtoAction::InputPrototype(a) => a.info(),
            ProtoAction::OutputPrototype(a) => a.info(),
            ProtoAction::PrototypeWarnings(a) => a.info(),
        }
    }

    pub fn get_name(&self) -> (r: &str)
        ensures
            r@ == self.info().name,
    {
        match self {
            ProtoAction::PrototypeTypes(a) => a.base.name.as_str(),
            ProtoAction::DefaultParams(a) => a.base.name.as_str(),
            ProtoAction::FuncLink(a) => a.base.name.as_str(),
            ProtoAction::FuncLinkOutOnly(a) => a.base.name.as_str(),
            ProtoAction::ParamDouble(a) => a.base.name.as_str(),
            ProtoAction::ActiveParam(a) => a.base.name.as_str(),
            ProtoAction::ActiveReturn(a) => a.base.name.as_str(),
            ProtoAction::ReturnRecovery(a) => a.base.name.as_str(),
            ProtoAction::RestrictLocal(a) => a.base.name.as_str(),
            ProtoAction::InputPrototype(a) => a.base.name.as_str(),
            ProtoAction::OutputPrototype(a) => a.base.name.as_str(),
            ProtoAction::PrototypeWarnings(a) => a.base.name.as_str(),
        }
    }

    pub fn get_group(&self) -> (r: &str)
        ensures
            r@ == self.info().group,
    {
        match self {
            ProtoAction::PrototypeTypes(a) => a.base.group.as_str(),
            ProtoAction::DefaultParams(a) => a.base.group.as_str(),
            ProtoAction::FuncLink(a) => a.base.group.as_str(),
            ProtoAction::FuncLinkOutOnly(a) => a.base.group.as_str(),
            ProtoAction::ParamDouble(a) => a.base.group.as_str(),
            ProtoAction::ActiveParam(a) => a.base.group.as_str(),
            ProtoAction::ActiveReturn(a) => a.base.group.as_str(),
            ProtoAction::ReturnRecovery(a) => a.base.group.as_str(),
            ProtoAction::RestrictLocal(a) => a.base.group.as_str(),
            ProtoAction::InputPrototype(a) => a.base.group.as_str(),
            ProtoAction::OutputPrototype(a) => a.base.group.as_str(),
            ProtoAction::PrototypeWarnings(a) => a.base.group.as_str(),
        }
    }
}

/// The names of the actions in the order in which they are applied.
pub open spec fn action_names() -> Seq<Seq<char>> {
    seq![
        "prototypetypes"@,
        "defaultparams"@,
        "funclink"@,
        "funclink_outonly"@,
        "paramdouble"@,
        "activeparam"@,
        "activereturn"@,
        "returnrecovery"@,
        "restrictlocal"@,
        "inputprototype"@,
        "outputprototype"@,
        "prototypewarnings"@,
    ]
}

/// The properties of the actions in that order.
pub open spec fn action_flags() -> Seq<u32> {
    seq![
        RULE_ONCEPERFUNC,
        RULE_ONCEPERFUNC,
        RULE_ONCEPERFUNC,
        RULE_ONCEPERFUNC,
        0u32,
        0u32,
        0u32,
        0u32,
        0u32,
        RULE_ONCEPERFUNC,
        RULE_ONCEPERFUNC,
        RULE_ONCEPERFUNC,
    ]
}

/// The actions in the order in which they are applied, all in one group. The
/// one that needs to know the stack space is not among them.
pub fn proto_actions(g: &str) -> (r: Vec<ProtoAction>)
    ensures
        r@.len() == action_names().len(),
        forall|i: int|
            0 <= i < r@.len() ==> (#[trigger] r@[i]).info().name == action_names()[i]
                && r@[i].info().flags == action_flags()[i] && r@[i].info().group == g@
                && r@[i].info().count == 0,
        r@[0] is PrototypeTypes,
        r@[1] is DefaultParams,
        r@[2] is FuncLink,
        r@[3] is FuncLinkOutOnly,
        r@[4] is ParamDouble,
        r@[5] is ActiveParam,
        r@[6] is ActiveReturn,
        r@[7] is ReturnRecovery,
        r@[8] is RestrictLocal,
        r@[9] is InputPrototype,
        r@[10] is OutputPrototype,
        r@[11] is PrototypeWarnings,
{
    let mut v: Vec<ProtoAction> = Vec::new();
    v.push(ProtoAction::PrototypeTypes(ActionPrototypeTypes::boxed(g)));
    v.push(ProtoAction::DefaultParams(ActionDefaultParams::boxed(g)));
    v.push(ProtoAction::FuncLink(ActionFuncLink::boxed(g)));
    v.push(ProtoAction::FuncLinkOutOnly(ActionFuncLinkOutOnly::boxed(g)));
    v.push(ProtoAction::ParamDouble(ActionParamDouble::boxed(g)));
    v.push(ProtoAction::ActiveParam(ActionActiveParam::boxed(g)));
    v.push(ProtoAction::ActiveReturn(ActionActiveReturn::boxed(g)));
    v.push(ProtoAction::ReturnRecovery(ActionReturnRecovery::boxed(g)));
    v.push(ProtoAction::RestrictLocal(ActionRestrictLocal::boxed(g)));
    v.push(ProtoAction::InputPrototype(ActionInputPrototype::boxed(g)));
    v.push(ProtoAction::OutputPrototype(ActionOutputPrototype::boxed(g)));
    v.push(ProtoAction::PrototypeWarnings(ActionPrototypeWarnings::boxed(g)));
    v
}

} // verus!
