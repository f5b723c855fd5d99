use kittens_code::reactor::place::{is_persistent_place, normalize_place, PlaceExpr};
use kittens_code::reactor::assemble::{assemble_reactor, DeclFault, DeclItem, ItemFault};
use kittens_code::reactor::syntax::{
    claim_phase, decode_arm, parse_policy, ArmFault, AttrInput, Delim, Expected, Meta,
    PhaseFault, PolicyFault, Tok,
};
use kittens_code::reactor::{PhaseName, ReadinessKind};

fn ident(s: &str) -> Tok {
    Tok::Ident(String::from(s))
}

fn punct(s: &str) -> Tok {
    Tok::Punct(String::from(s))
}

fn list(tokens: Vec<Tok>) -> Meta {
    Meta::List {
        tokens,
        expression: false,
    }
}

fn attr(name: &str, meta: Meta) -> AttrInput {
    AttrInput {
        name: Some(String::from(name)),
        meta,
    }
}

fn basic() -> Vec<AttrInput> {
    vec![
        attr("source", list(vec![ident("rx")])),
        attr("readiness", list(vec![ident("quiescent")])),
    ]
}

#[test]
fn policy_accepts_both_fields_in_either_order() {
    let tokens = vec![
        ident("required_phases"),
        punct(":"),
        Tok::Group {
            delim: Delim::Bracket,
            body: vec![ident("initialize"), punct(","), ident("after_event"), punct(",")],
        },
        punct(";"),
        ident("selection"),
        punct(":"),
        ident("biased"),
        punct(";"),
    ];
    assert_eq!(
        parse_policy(&tokens),
        Ok(vec![String::from("initialize"), String::from("after_event")])
    );
}

#[test]
fn policy_refusals_name_their_rule() {
    let sel = |v: &str| vec![ident("selection"), punct(":"), ident(v), punct(";")];
    let phases = vec![
        ident("required_phases"),
        punct(":"),
        Tok::Group {
            delim: Delim::Bracket,
            body: vec![],
        },
        punct(";"),
    ];
    let err = parse_policy(&sel("fair")).unwrap_err();
    assert_eq!(
        err,
        PolicyFault::UnsupportedSelection {
            at: 2,
            value: String::from("fair")
        }
    );
    assert_eq!(err.code(), Some("KTR012"));
    assert_eq!(parse_policy(&phases), Err(PolicyFault::MissingSelection));
    assert_eq!(parse_policy(&sel("biased")), Err(PolicyFault::MissingPhases));
    let mut twice = sel("biased");
    twice.extend(sel("biased"));
    assert_eq!(
        parse_policy(&twice),
        Err(PolicyFault::DuplicateSelection { at: 4 })
    );
    let odd = vec![ident("fairness"), punct(":"), ident("x"), punct(";")];
    assert_eq!(
        parse_policy(&odd),
        Err(PolicyFault::UnsupportedField {
            at: 0,
            field: String::from("fairness")
        })
    );
    let missing_colon = vec![ident("selection"), ident("biased")];
    let err = parse_policy(&missing_colon).unwrap_err();
    assert_eq!(
        err,
        PolicyFault::Syntax {
            expected: Expected::Colon,
            at: 1,
            inner: None
        }
    );
    assert_eq!(err.code(), None);
}

#[test]
fn arm_attributes_decode_into_a_source_arm() {
    let mut attrs = basic();
    attrs.push(attr("before", list(vec![ident("b")])));
    attrs.push(attr("last", Meta::Path));
    attrs.push(attr(
        "yields_to",
        list(vec![
            ident("b"),
            punct(","),
            ident("when"),
            punct("="),
            ident("buffered"),
        ]),
    ));
    attrs.push(attr(
        "drain",
        list(vec![
            ident("max"),
            punct("="),
            Tok::Int {
                digits: String::from("64"),
                suffix: String::new(),
            },
        ]),
    ));
    attrs.push(attr(
        "starvation",
        list(vec![
            ident("allowed"),
            punct(","),
            ident("reason"),
            punct("="),
            Tok::Str(String::from("bounded by design")),
        ]),
    ));
    let arm = decode_arm(&attrs, true, true, String::from("self.rx")).unwrap();
    assert_eq!(arm.id, "rx");
    assert_eq!(arm.readiness, ReadinessKind::Quiescent);
    assert_eq!(arm.before, vec![String::from("b")]);
    assert!(arm.last && arm.starvation_waived && !arm.shutdown);
    assert_eq!(arm.yields_to, Some(String::from("b")));
    assert_eq!(arm.drain, Some(64));
    assert_eq!(arm.place, "self.rx");
}

#[test]
fn arm_attribute_refusals_follow_declaration_order() {
    assert_eq!(
        decode_arm(&basic(), false, true, String::new()).unwrap_err(),
        ArmFault::BadBinding
    );
    let mut dup = basic();
    dup.push(attr("source", list(vec![ident("again")])));
    assert_eq!(
        decode_arm(&dup, true, true, String::new()),
        Err(ArmFault::Duplicate { attr: 2 })
    );
    let mut flag = basic();
    flag.push(attr("shutdown", list(vec![])));
    assert_eq!(
        decode_arm(&flag, true, true, String::new()),
        Err(ArmFault::TakesNoArguments { attr: 2 })
    );
    let drain = |digits: &str, suffix: &str| {
        let mut a = basic();
        a.push(attr(
            "drain",
            list(vec![
                ident("max"),
                punct("="),
                Tok::Int {
                    digits: String::from(digits),
                    suffix: String::from(suffix),
                },
            ]),
        ));
        decode_arm(&a, true, true, String::new())
    };
    assert_eq!(drain("0", ""), Err(ArmFault::DrainOutOfRange { attr: 2 }));
    assert_eq!(drain("4097", ""), Err(ArmFault::DrainOutOfRange { attr: 2 }));
    assert_eq!(drain("8", "usize"), Err(ArmFault::DrainOutOfRange { attr: 2 }));
    assert_eq!(
        drain("99999999999999999999999", ""),
        Err(ArmFault::DrainUnparsable { attr: 2 })
    );
    assert_eq!(drain("4096", "").unwrap().drain, Some(4096));
    let mut blank = basic();
    blank.push(attr(
        "starvation",
        list(vec![
            ident("allowed"),
            punct(","),
            ident("reason"),
            punct("="),
            Tok::Str(String::from("   ")),
        ]),
    ));
    let err = decode_arm(&blank, true, true, String::new()).unwrap_err();
    assert_eq!(err, ArmFault::EmptyWaiverReason { attr: 2 });
    assert_eq!(err.code(), Some("KTR018"));
    let no_readiness = vec![attr("source", list(vec![ident("rx")]))];
    assert_eq!(
        decode_arm(&no_readiness, true, true, String::new()),
        Err(ArmFault::MissingReadiness)
    );
    assert_eq!(
        decode_arm(&vec![], true, true, String::new()),
        Err(ArmFault::MissingSource)
    );
    let mut odd = basic();
    odd.push(AttrInput {
        name: None,
        meta: Meta::Path,
    });
    assert_eq!(
        decode_arm(&odd, true, true, String::new()),
        Err(ArmFault::Unsupported { attr: 2 })
    );
}

#[test]
fn phase_blocks_claim_one_slot_each() {
    assert_eq!(claim_phase("initialize", &[false; 3]), Ok(PhaseName::Initialize));
    assert_eq!(
        claim_phase("after_event", &[false, false, true]),
        Err(PhaseFault::Repeated)
    );
    assert_eq!(claim_phase("teardown", &[false; 3]), Err(PhaseFault::Unknown));
}

fn good_policy() -> Vec<Tok> {
    vec![
        ident("selection"),
        punct(":"),
        ident("biased"),
        punct(";"),
        ident("required_phases"),
        punct(":"),
        Tok::Group {
            delim: Delim::Bracket,
            body: vec![ident("after_event")],
        },
        punct(";"),
    ]
}

fn arm_item() -> DeclItem {
    DeclItem::Arm {
        attrs: basic(),
        binding_ok: true,
        persistent_place: true,
        place: String::from("sources.rx"),
    }
}

fn phase_item(name: &str, has_block: bool) -> DeclItem {
    DeclItem::Phase {
        name: String::from(name),
        has_block,
    }
}

#[test]
fn reactor_assembles_policy_arms_and_phases() {
    let items = vec![arm_item(), phase_item("after_event", true)];
    let decl = assemble_reactor("policy", &good_policy(), &items).unwrap();
    assert_eq!(decl.required_phases, vec![String::from("after_event")]);
    assert!(decl.after_event && !decl.initialize && !decl.before_poll);
    assert_eq!(decl.arms.len(), 1);
    assert_eq!(decl.arms[0].id, "rx");
    assert_eq!(decl.arms[0].place, "sources.rx");
}

#[test]
fn reactor_refusals_come_in_item_order() {
    assert_eq!(
        assemble_reactor("selection", &good_policy(), &vec![]),
        Err(DeclFault::MissingPolicy)
    );
    assert_eq!(
        assemble_reactor("policy", &vec![], &vec![]),
        Err(DeclFault::Policy(PolicyFault::MissingSelection))
    );
    let items = vec![phase_item("initialize", true), phase_item("initialize", true)];
    assert_eq!(
        assemble_reactor("policy", &good_policy(), &items),
        Err(DeclFault::Item {
            item: 1,
            fault: ItemFault::Phase(PhaseFault::Repeated)
        })
    );
    let items = vec![arm_item(), phase_item("cleanup", true)];
    assert_eq!(
        assemble_reactor("policy", &good_policy(), &items),
        Err(DeclFault::Item {
            item: 1,
            fault: ItemFault::Phase(PhaseFault::Unknown)
        })
    );
    let items = vec![phase_item("initialize", false)];
    assert_eq!(
        assemble_reactor("policy", &good_policy(), &items),
        Err(DeclFault::Item {
            item: 0,
            fault: ItemFault::ExpectedBlock
        })
    );
}

#[test]
fn place_expressions_are_classified_and_normalized() {
    use_place();
}

fn use_place() {
    let path = |t: &str| PlaceExpr::Path(String::from(t));
    let field = PlaceExpr::Field(Box::new(path("sources")), String::from("rx"));
    assert!(is_persistent_place(&field));
    assert_eq!(normalize_place(&field), "sources.rx");
    let nested = PlaceExpr::Paren(Box::new(PlaceExpr::Field(
        Box::new(path("self . inner")),
        String::from("queue"),
    )));
    assert!(is_persistent_place(&nested));
    assert_eq!(normalize_place(&nested), "self.inner.queue");
    let call = PlaceExpr::Other(String::from("make_source ( )"));
    assert!(!is_persistent_place(&call));
    assert_eq!(normalize_place(&call), "make_source()");
    let through_call = PlaceExpr::Field(Box::new(call), String::from("rx"));
    assert!(!is_persistent_place(&through_call));
}
