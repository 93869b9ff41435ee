use glam_syntax::net_lowering::{free_bindings, is_closed, lower_code};
use glam_syntax::net_steps::{
    binds_arguments, net_steps, DataKey, NetData, NetOperator, NetStep, NetTemplate, Port, PortPlace,
};
use glam_syntax::values::{name_as_key, BindingId, ResolvedExpr, ResolvedPathPart, Value};

fn local(id: usize) -> ResolvedExpr {
    ResolvedExpr::Local(BindingId(id))
}

#[test]
fn captures_ascend_and_come_before_parameters() {
    let body = ResolvedExpr::Apply(
        Box::new(local(9)),
        vec![
            local(4),
            ResolvedExpr::Access {
                base: Box::new(local(2)),
                path: vec![
                    ResolvedPathPart::Key(name_as_key("k")),
                    ResolvedPathPart::Index(local(9)),
                    ResolvedPathPart::PathIndex(local(7)),
                ],
            },
            ResolvedExpr::Embedded(Value::unit()),
        ],
    );
    let code = lower_code(&vec![BindingId(4)], &body);
    assert_eq!(code.captures, [BindingId(2), BindingId(7), BindingId(9)]);
    assert_eq!(
        code.inputs,
        [BindingId(2), BindingId(7), BindingId(9), BindingId(4)]
    );
    assert_eq!(code.arity, 1);
    assert!(is_closed(&ResolvedExpr::Lambda(code.inputs, Box::new(body))));
}

#[test]
fn functions_bind_their_parameters() {
    let function = ResolvedExpr::Lambda(vec![BindingId(0)], Box::new(local(0)));
    assert!(is_closed(&function));
    assert_eq!(free_bindings(&ResolvedExpr::List(vec![function, local(3)])), [BindingId(3)]);
    assert!(!is_closed(&local(1)));
}

fn port(step: usize, place: PortPlace) -> Port {
    Port { step, place }
}

fn operator(operator: NetOperator) -> NetStep {
    NetStep::Operator(operator)
}

#[test]
fn an_identity_wires_its_argument_to_its_result() {
    assert_eq!(
        net_steps(&vec![BindingId(0)], &local(0)),
        [NetTemplate {
            captures: vec![],
            arity: 1,
            steps: vec![
                NetStep::Copy(1),
                NetStep::BindSpine(1),
                NetStep::Wire(port(1, PortPlace::Result), port(0, PortPlace::Input)),
                NetStep::Copy(1),
                NetStep::Wire(port(1, PortPlace::Argument(0)), port(3, PortPlace::Input)),
                NetStep::Wire(port(3, PortPlace::Output(0)), port(0, PortPlace::Output(0))),
                NetStep::Finish(port(1, PortPlace::Input)),
            ],
        }]
    );
}

#[test]
fn applications_attach_their_arguments_one_after_the_other() {
    let body = ResolvedExpr::Apply(
        Box::new(local(3)),
        vec![ResolvedExpr::Embedded(Value::unit()), local(4)],
    );
    let templates = net_steps(&vec![BindingId(3)], &body);
    assert_eq!(templates.len(), 2);
    assert_eq!(templates[0].captures, [BindingId(4)]);
    assert_eq!(templates[0].arity, 0);
    assert_eq!(templates[1].captures, [BindingId(4)]);
    assert_eq!(templates[1].arity, 1);
    assert_eq!(
        templates[1].steps[..13],
        [
            NetStep::Copy(1),
            operator(NetOperator::ApplyArity(2)),
            NetStep::Bind,
            NetStep::Wire(port(1, PortPlace::Result), port(2, PortPlace::Application)),
            NetStep::Bind,
            NetStep::Wire(port(2, PortPlace::Result), port(4, PortPlace::Application)),
            NetStep::Data(NetData::Value(Value::unit())),
            NetStep::Wire(port(6, PortPlace::Result), port(4, PortPlace::Argument(0))),
            NetStep::Bind,
            NetStep::Wire(port(4, PortPlace::Result), port(8, PortPlace::Application)),
            operator(NetOperator::CaptureComputation(0)),
            NetStep::Bind,
            NetStep::Wire(port(10, PortPlace::Result), port(11, PortPlace::Application)),
        ]
    );
}

#[test]
fn code_within_code_becomes_a_template() {
    let function = ResolvedExpr::Lambda(vec![BindingId(1)], Box::new(local(1)));
    let access = ResolvedExpr::Access {
        base: Box::new(function),
        path: vec![
            ResolvedPathPart::Key(name_as_key("k")),
            ResolvedPathPart::Index(ResolvedExpr::List(vec![])),
        ],
    };
    let templates = net_steps(&vec![], &access);
    assert_eq!(templates.len(), 2);
    assert_eq!(
        templates[1].steps,
        [
            NetStep::Copy(1),
            operator(NetOperator::Access(vec![
                DataKey::Key(name_as_key("k")),
                DataKey::Index
            ])),
            NetStep::Bind,
            NetStep::Wire(port(1, PortPlace::Result), port(2, PortPlace::Application)),
            NetStep::Data(NetData::Function(0)),
            NetStep::Wire(port(4, PortPlace::Result), port(2, PortPlace::Argument(0))),
            NetStep::Bind,
            NetStep::Wire(port(2, PortPlace::Result), port(6, PortPlace::Application)),
            NetStep::Data(NetData::Value(Value::list(vec![]))),
            NetStep::Wire(port(8, PortPlace::Result), port(6, PortPlace::Argument(0))),
            NetStep::Wire(port(6, PortPlace::Result), port(0, PortPlace::Output(0))),
            NetStep::Finish(port(0, PortPlace::Input)),
        ]
    );
    let list = net_steps(&vec![], &ResolvedExpr::List(vec![ResolvedExpr::List(vec![local(0)])]));
    assert_eq!(list[2].captures, [BindingId(0)]);
    assert_eq!(list[2].steps[1], operator(NetOperator::List(1)));
    assert_eq!(list[1].steps[1], operator(NetOperator::List(1)));
    assert_eq!(list[0].steps[0], NetStep::Copy(1));
}

#[test]
fn a_local_is_copied_to_every_use() {
    let body = ResolvedExpr::Access {
        base: Box::new(local(0)),
        path: vec![ResolvedPathPart::PathIndex(local(0))],
    };
    let templates = net_steps(&vec![BindingId(0), BindingId(5)], &body);
    let copies: Vec<&NetStep> = templates[0]
        .steps
        .iter()
        .filter(|step| matches!(step, NetStep::Copy(_)))
        .collect();
    assert_eq!(
        copies,
        [&NetStep::Copy(1), &NetStep::Copy(2), &NetStep::Copy(0)]
    );
}

#[test]
fn functions_without_parameters_are_told_apart() {
    let empty = || ResolvedExpr::Lambda(vec![], Box::new(local(0)));
    assert!(!binds_arguments(&empty()));
    assert!(!binds_arguments(&ResolvedExpr::List(vec![local(0), empty()])));
    assert!(!binds_arguments(&ResolvedExpr::Access {
        base: Box::new(local(0)),
        path: vec![ResolvedPathPart::Index(empty())],
    }));
    assert!(binds_arguments(&ResolvedExpr::Apply(
        Box::new(ResolvedExpr::Lambda(vec![BindingId(0)], Box::new(local(0)))),
        vec![local(1)],
    )));
}
