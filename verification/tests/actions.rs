//! The named steps of prototype recovery.
use kuna_decomp::actions::{
    proto_actions, Action, ActionActiveParam, ActionActiveReturn, ActionBase, ActionDefaultParams,
    ActionExtraPopSetup, ActionFuncLink, ActionFuncLinkOutOnly, ActionGroupList,
    ActionInputPrototype, ActionOutputPrototype, ActionParamDouble, ActionPrototypeTypes,
    ActionPrototypeWarnings, ActionRestrictLocal, ActionReturnRecovery, ProtoAction,
    RULE_ONCEPERFUNC,
};
use kuna_decomp::graph::Graph;
use kuna_decomp::script::{Edit, Script};

fn names(list: &[&str]) -> ActionGroupList {
    ActionGroupList::from_names(list.iter().map(|n| n.to_string()).collect())
}

fn shows<A: Action>(a: Box<A>, expect: &str) {
    assert_eq!(a.get_name(), expect);
    assert_eq!(a.get_group(), "g0");
}

#[test]
fn names_and_groups_match_cpp() {
    shows(ActionPrototypeTypes::boxed("g0"), "prototypetypes");
    shows(ActionDefaultParams::boxed("g0"), "defaultparams");
    shows(ActionFuncLink::boxed("g0"), "funclink");
    shows(ActionFuncLinkOutOnly::boxed("g0"), "funclink_outonly");
    shows(ActionParamDouble::boxed("g0"), "paramdouble");
    shows(ActionActiveParam::boxed("g0"), "activeparam");
    shows(ActionActiveReturn::boxed("g0"), "activereturn");
    shows(ActionReturnRecovery::boxed("g0"), "returnrecovery");
    shows(ActionRestrictLocal::boxed("g0"), "restrictlocal");
    shows(ActionInputPrototype::boxed("g0"), "inputprototype");
    shows(ActionOutputPrototype::boxed("g0"), "outputprototype");
    shows(ActionPrototypeWarnings::boxed("g0"), "prototypewarnings");
    shows(ActionExtraPopSetup::boxed("g0", Some(3)), "extrapopsetup");
}

fn flags_of<A: Action>(a: Box<A>) -> u32 {
    a.base().flags
}

#[test]
fn flags_match_cpp_constructors() {
    assert_eq!(flags_of(ActionPrototypeTypes::boxed("g")), RULE_ONCEPERFUNC);
    assert_eq!(flags_of(ActionDefaultParams::boxed("g")), RULE_ONCEPERFUNC);
    assert_eq!(flags_of(ActionFuncLink::boxed("g")), RULE_ONCEPERFUNC);
    assert_eq!(flags_of(ActionFuncLinkOutOnly::boxed("g")), RULE_ONCEPERFUNC);
    assert_eq!(flags_of(ActionInputPrototype::boxed("g")), RULE_ONCEPERFUNC);
    assert_eq!(flags_of(ActionOutputPrototype::boxed("g")), RULE_ONCEPERFUNC);
    assert_eq!(flags_of(ActionPrototypeWarnings::boxed("g")), RULE_ONCEPERFUNC);
    assert_eq!(flags_of(ActionExtraPopSetup::boxed("g", None)), RULE_ONCEPERFUNC);
    assert_eq!(flags_of(ActionParamDouble::boxed("g")), 0);
    assert_eq!(flags_of(ActionActiveParam::boxed("g")), 0);
    assert_eq!(flags_of(ActionActiveReturn::boxed("g")), 0);
    assert_eq!(flags_of(ActionReturnRecovery::boxed("g")), 0);
    assert_eq!(flags_of(ActionRestrictLocal::boxed("g")), 0);
}

#[test]
fn clone_filtered_respects_grouplist() {
    let gl = names(&["protorecovery"]);
    let a = ActionFuncLink::boxed("protorecovery");
    let c = a.clone_filtered(&gl).expect("in-group clone");
    assert_eq!(c.get_name(), "funclink");
    assert_eq!(c.get_group(), "protorecovery");
    let b = ActionFuncLink::boxed("notenabled");
    assert!(b.clone_filtered(&gl).is_none());
}

#[test]
fn extrapop_clone_carries_stackspace() {
    let gl = names(&["protorecovery"]);
    let a = ActionExtraPopSetup::boxed("protorecovery", Some(7));
    let c = a.clone_filtered(&gl).expect("in-group clone");
    assert_eq!(c.get_name(), "extrapopsetup");
    assert_eq!(c.stackspace, Some(7));
    let c2 = c.clone_filtered(&gl).expect("re-clone");
    assert_eq!(c2.get_name(), "extrapopsetup");
    assert_eq!(c2.stackspace, Some(7));
}

#[test]
fn proto_actions_enumerates_in_cpp_order() {
    let acts = proto_actions("g");
    let got: Vec<&str> = acts.iter().map(|a| a.get_name()).collect();
    assert_eq!(
        got,
        vec![
            "prototypetypes",
            "defaultparams",
            "funclink",
            "funclink_outonly",
            "paramdouble",
            "activeparam",
            "activereturn",
            "returnrecovery",
            "restrictlocal",
            "inputprototype",
            "outputprototype",
            "prototypewarnings",
        ]
    );
}

#[test]
fn extrapop_null_stackspace_applies_no_change() {
    let mut act = ActionExtraPopSetup {
        base: ActionBase::new(RULE_ONCEPERFUNC, "extrapopsetup", "g"),
        stackspace: None,
    };
    let g = Graph { varnodes: Vec::new(), ops: Vec::new() };
    let mut s = Script::new(0, 0, true);
    let mut calls = Vec::new();
    let res: i32 = act.apply(&mut calls, &g, &mut s, None);
    assert_eq!(res, 0);
    assert_eq!(act.base().count, 0);
    assert!(s.edits.is_empty());
}

#[test]
fn idle_steps_change_nothing() {
    let mut s = Script::new(0, 0, true);
    assert_eq!(ActionParamDouble::boxed("g").apply(&mut s), 0);
    assert_eq!(ActionPrototypeWarnings::boxed("g").apply(&mut s), 0);
    assert!(s.edits.is_empty());
    assert_eq!(ActionRestrictLocal::boxed("g").apply(&mut s), 0);
    assert_eq!(s.edits.len(), 1);
    assert!(matches!(s.edits[0], Edit::RestrictLocal));
}

fn step_flags(a: &ProtoAction) -> u32 {
    match a {
        ProtoAction::PrototypeTypes(x) => x.base().flags,
        ProtoAction::DefaultParams(x) => x.base().flags,
        ProtoAction::FuncLink(x) => x.base().flags,
        ProtoAction::FuncLinkOutOnly(x) => x.base().flags,
        ProtoAction::ParamDouble(x) => x.base().flags,
        ProtoAction::ActiveParam(x) => x.base().flags,
        ProtoAction::ActiveReturn(x) => x.base().flags,
        ProtoAction::ReturnRecovery(x) => x.base().flags,
        ProtoAction::RestrictLocal(x) => x.base().flags,
        ProtoAction::InputPrototype(x) => x.base().flags,
        ProtoAction::OutputPrototype(x) => x.base().flags,
        ProtoAction::PrototypeWarnings(x) => x.base().flags,
    }
}

#[test]
fn steps_run_once_or_until_stable() {
    let once: Vec<bool> = proto_actions("g")
        .iter()
        .map(|a| step_flags(a) == RULE_ONCEPERFUNC)
        .collect();
    assert_eq!(
        once,
        vec![true, true, true, true, false, false, false, false, false, true, true, true]
    );
    assert_eq!(step_flags(&proto_actions("g")[4]), 0);
}
