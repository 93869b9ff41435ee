//! Nets read back as code.
//!
//! A net is read from the port of its body, along its wires, without regard to
//! how it was built. What is read is code whose locals are numbered from the
//! outside in, so that the names of locals do not matter. Templates that
//! capture are read with what is applied to them in place of their captures.

use vstd::prelude::*;
use crate::net_lowering;
use crate::net_steps;
use crate::net_steps::{
    DataKey, DataView, Net, OperatorView, Place, Spot, StepView, TemplateView,
};
use crate::values;
use crate::values::{BindingId, Form, ResolvedExpr, ResolvedPathPart, Shape};

verus! {

/// Code whose locals are numbered from the outside in.
pub enum Code {
    Bound(nat),
    Data(Form),
    List(Seq<Code>),
    /// What is accessed, along which keys, and those that are computed.
    Access(Box<Code>, Seq<DataKey>, Seq<Code>),
    Function(nat, Box<Code>),
    Apply(Box<Code>, Seq<Code>),
}

/// The locals of a function by their numbers. Of two with one name the first
/// counts.
pub open spec fn numbered(env: Map<nat, Code>, ids: Seq<nat>, level: nat) -> Map<nat, Code>
    decreases ids.len(),
{
    if ids.len() == 0 {
        env
    } else {
        numbered(
            env.insert(ids.last(), Code::Bound((level + ids.len() - 1) as nat)),
            ids.drop_last(),
            level,
        )
    }
}

/// Code with its locals by number.
pub open spec fn leveled(env: Map<nat, Code>, level: nat, code: ResolvedExpr) -> Code
    decreases code,
{
    match code {
        ResolvedExpr::Embedded(value) => Code::Data(values::value_form(value)),
        ResolvedExpr::Provided(value) => Code::Data(values::value_form(value)),
        ResolvedExpr::Local(id) => env[id.0 as nat],
        ResolvedExpr::List(items) => if items@.len() == 0 {
            Code::Data(values::shaped(Shape::List, Seq::empty()))
        } else {
            Code::List(leveled_all(env, level, items@))
        },
        ResolvedExpr::Access { base, path } => Code::Access(
            Box::new(leveled(env, level, *base)),
            key_kinds(path@),
            leveled_path(env, level, path@),
        ),
        ResolvedExpr::Lambda(parameters, body) => Code::Function(
            parameters@.len(),
            Box::new(
                leveled(
                    numbered(env, values::ids(parameters@), level),
                    level + parameters@.len(),
                    *body,
                ),
            ),
        ),
        ResolvedExpr::Apply(function, arguments) => Code::Apply(
            Box::new(leveled(env, level, *function)),
            leveled_all(env, level, arguments@),
        ),
    }
}

pub open spec fn leveled_all(
    env: Map<nat, Code>,
    level: nat,
    items: Seq<ResolvedExpr>,
) -> Seq<Code>
    decreases items,
{
    if items.len() == 0 {
        Seq::empty()
    } else {
        leveled_all(env, level, items.drop_last()).push(leveled(env, level, items.last()))
    }
}

/// The computed components of a path.
pub open spec fn leveled_path(
    env: Map<nat, Code>,
    level: nat,
    path: Seq<ResolvedPathPart>,
) -> Seq<Code>
    decreases path,
{
    if path.len() == 0 {
        Seq::empty()
    } else {
        leveled_path(env, level, path.drop_last()) + leveled_part(env, level, path.last())
    }
}

pub open spec fn leveled_part(
    env: Map<nat, Code>,
    level: nat,
    part: ResolvedPathPart,
) -> Seq<Code>
    decreases part,
{
    match part {
        ResolvedPathPart::Key(_) => Seq::empty(),
        ResolvedPathPart::Index(code) => seq![leveled(env, level, code)],
        ResolvedPathPart::PathIndex(code) => seq![leveled(env, level, code)],
    }
}

/// What kind of key each component of a path is.
pub open spec fn key_kinds(path: Seq<ResolvedPathPart>) -> Seq<DataKey>
    decreases path.len(),
{
    if path.len() == 0 {
        Seq::empty()
    } else {
        key_kinds(path.drop_last()).push(
            match path.last() {
                ResolvedPathPart::Key(key) => DataKey::Key(key),
                ResolvedPathPart::Index(_) => DataKey::Index,
                ResolvedPathPart::PathIndex(_) => DataKey::PathIndex,
            },
        )
    }
}

pub open spec fn wire_at(steps: Seq<StepView>, k: int, source: Spot, port: Spot) -> bool {
    0 <= k < steps.len() && steps[k] == StepView::Wire(source, port)
}

/// A wire leads from one port to another.
pub open spec fn feeds(steps: Seq<StepView>, source: Spot, port: Spot) -> bool {
    exists|k: int| #[trigger] wire_at(steps, k, source, port)
}

/// What the net of a template shows of itself: a node that takes its inputs, if
/// there are any, whose result is the body.
pub open spec fn opens(steps: Seq<StepView>, count: nat) -> bool {
    &&& steps.len() > 0
    &&& steps[0] == StepView::Copy(1)
    &&& steps.last() matches StepView::Finish(shown) && if count == 0 {
        shown == (Spot { step: 0, place: Place::Input })
    } else {
        &&& shown.place == Place::Input
        &&& shown.step < steps.len()
        &&& steps[shown.step as int] == StepView::BindSpine(count)
        &&& feeds(
            steps,
            Spot { step: shown.step, place: Place::Result },
            Spot { step: 0, place: Place::Input },
        )
    }
}

/// A port gets the input `i` of its net from the output `j` of the copy `c`.
pub open spec fn copied(steps: Seq<StepView>, port: Spot, i: nat, c: nat, j: nat) -> bool {
    &&& steps.len() > 0
    &&& c < steps.len()
    &&& steps[c as int] is Copy
    &&& feeds(steps, Spot { step: c, place: Place::Output(j) }, port)
    &&& steps.last() is Finish
    &&& feeds(
        steps,
        Spot { step: (steps.last()->Finish_0).step, place: Place::Argument(i) },
        Spot { step: c, place: Place::Input },
    )
}

/// A port gets an input of its net.
pub open spec fn gets(steps: Seq<StepView>, port: Spot, i: nat) -> bool {
    exists|c: nat, j: nat| #[trigger] copied(steps, port, i, c, j)
}

/// A port gets what one of the inputs is.
pub open spec fn arrives(
    steps: Seq<StepView>,
    inputs: Seq<Code>,
    port: Spot,
    code: Code,
) -> bool {
    exists|i: nat| #[trigger] gets(steps, port, i) && i < inputs.len() && inputs[i as int] == code
}

pub open spec fn all_arrive(
    steps: Seq<StepView>,
    inputs: Seq<Code>,
    ports: Seq<Spot>,
    codes: Seq<Code>,
) -> bool {
    ports.len() == codes.len() && forall|k: int|
        0 <= k < ports.len() ==> arrives(steps, inputs, #[trigger] ports[k], codes[k])
}

/// What comes from a port is an operator applied to what comes to other ports,
/// one after the other.
pub open spec fn applied(
    steps: Seq<StepView>,
    source: Spot,
    operator: OperatorView,
    arguments: Seq<Spot>,
) -> bool
    decreases arguments.len(),
{
    &&& source.step < steps.len()
    &&& source.place == Place::Result
    &&& if arguments.len() == 0 {
        steps[source.step as int] == StepView::Operator(operator)
    } else {
        &&& steps[source.step as int] == StepView::Bind
        &&& arguments.last() == (Spot { step: source.step, place: Place::Argument(0) })
        &&& exists|before: Spot|
            #[trigger] feeds(
                steps,
                before,
                Spot { step: source.step, place: Place::Application },
            ) && applied(steps, before, operator, arguments.drop_last())
    }
}

/// The port of the body of a net.
pub open spec fn body_port() -> Spot {
    Spot { step: 0, place: Place::Output(0) }
}

/// The numbers of the locals of a function.
pub open spec fn bounds(level: nat, arity: nat) -> Seq<Code> {
    Seq::new(arity, |k: int| Code::Bound((level + k) as nat))
}

/// What comes to a port reads as code. Only templates before the `n`th are
/// referred to.
pub open spec fn carries(
    ts: Seq<TemplateView>,
    n: nat,
    steps: Seq<StepView>,
    inputs: Seq<Code>,
    level: nat,
    port: Spot,
    code: Code,
) -> bool
    decreases code, n, 4nat,
{
    ||| arrives(steps, inputs, port, code)
    ||| exists|source: Spot| #[trigger]
        feeds(steps, source, port) && gives(ts, n, steps, inputs, level, source, code)
}

/// What comes from a port reads as code.
pub open spec fn gives(
    ts: Seq<TemplateView>,
    n: nat,
    steps: Seq<StepView>,
    inputs: Seq<Code>,
    level: nat,
    source: Spot,
    code: Code,
) -> bool
    decreases code, n, 3nat,
{
    ||| source.step < steps.len() && source.place == Place::Result
        && steps[source.step as int] is Data && holds(
        ts,
        n,
        level,
        steps[source.step as int]->Data_0,
        code,
    )
    ||| exists|operator: OperatorView, arguments: Seq<Spot>| #[trigger]
        applied(steps, source, operator, arguments) && operates(
            ts,
            n,
            steps,
            inputs,
            level,
            operator,
            arguments,
            code,
        )
}

/// What data reads as.
pub open spec fn holds(
    ts: Seq<TemplateView>,
    n: nat,
    level: nat,
    data: DataView,
    code: Code,
) -> bool
    decreases code, n, 2nat,
{
    match data {
        DataView::Value(form) => code == Code::Data(form),
        DataView::Function(t) => t < n && function_reads(ts, t, Seq::empty(), level, code),
        DataView::Computation(t) => t < n && ts[t as int].arity == 0
            && ts[t as int].captures.len() == 0 && opens(ts[t as int].steps, 0) && carries(
            ts,
            t,
            ts[t as int].steps,
            Seq::empty(),
            level,
            body_port(),
            code,
        ),
    }
}

/// What an operator on the ports of its arguments reads as.
pub open spec fn operates(
    ts: Seq<TemplateView>,
    n: nat,
    steps: Seq<StepView>,
    inputs: Seq<Code>,
    level: nat,
    operator: OperatorView,
    arguments: Seq<Spot>,
    code: Code,
) -> bool
    decreases code, n, 2nat,
{
    match operator {
        OperatorView::List(count) => code matches Code::List(items) && items.len() == count
            && arguments.len() == count && forall|k: int|
            0 <= k < items.len() ==> carries(
                ts,
                n,
                steps,
                inputs,
                level,
                #[trigger] arguments[k],
                items[k],
            ),
        OperatorView::Access(keys) => code matches Code::Access(base, found, computed) && found
            == keys && arguments.len() == computed.len() + 1 && carries(
            ts,
            n,
            steps,
            inputs,
            level,
            arguments[0],
            *base,
        ) && forall|k: int|
            0 <= k < computed.len() ==> carries(
                ts,
                n,
                steps,
                inputs,
                level,
                #[trigger] arguments[k + 1],
                computed[k],
            ),
        OperatorView::ApplyArity(count) => code matches Code::Apply(function, given)
            && given.len() == count && arguments.len() == count + 1 && carries(
            ts,
            n,
            steps,
            inputs,
            level,
            arguments[0],
            *function,
        ) && forall|k: int|
            0 <= k < given.len() ==> carries(
                ts,
                n,
                steps,
                inputs,
                level,
                #[trigger] arguments[k + 1],
                given[k],
            ),
        OperatorView::CaptureFunction(t) => t < n && exists|captured: Seq<Code>| #[trigger]
            all_arrive(steps, inputs, arguments, captured) && function_reads(
                ts,
                t,
                captured,
                level,
                code,
            ),
        OperatorView::CaptureComputation(t) => t < n && exists|captured: Seq<Code>| #[trigger]
            all_arrive(steps, inputs, arguments, captured) && ts[t as int].arity == 0
                && ts[t as int].captures.len() == captured.len() && opens(
                ts[t as int].steps,
                captured.len(),
            ) && carries(ts, t, ts[t as int].steps, captured, level, body_port(), code),
    }
}

/// A template reads as a function: its first inputs are what it captures, and
/// the others are its arguments.
pub open spec fn function_reads(
    ts: Seq<TemplateView>,
    t: nat,
    captured: Seq<Code>,
    level: nat,
    code: Code,
) -> bool
    decreases code, t, 1nat,
{
    code matches Code::Function(arity, body) && {
        &&& ts[t as int].arity == arity
        &&& ts[t as int].captures.len() == captured.len()
        &&& opens(ts[t as int].steps, captured.len() + arity)
        &&& carries(
            ts,
            t,
            ts[t as int].steps,
            captured + bounds(level, arity),
            level + arity,
            body_port(),
            *body,
        )
    }
}

/// One list begins another.
pub open spec fn begins<A>(a: Seq<A>, b: Seq<A>) -> bool {
    a.len() <= b.len() && b.take(a.len() as int) == a
}

proof fn begins_trans<A>(a: Seq<A>, b: Seq<A>, c: Seq<A>)
    requires
        begins(a, b),
        begins(b, c),
    ensures
        begins(a, c),
{
    assert(c.take(b.len() as int).take(a.len() as int) =~= c.take(a.len() as int));
}

proof fn begins_at<A>(a: Seq<A>, b: Seq<A>, k: int)
    requires
        begins(a, b),
        0 <= k < a.len(),
    ensures
        b[k] == a[k],
{
    assert(b.take(a.len() as int)[k] == b[k]);
}

/// A net has grown into another.
#[verifier::opaque]
pub open spec fn grows(a: Net, b: Net) -> bool {
    begins(a.templates, b.templates) && begins(a.steps, b.steps) && begins(a.waiting, b.waiting)
}

proof fn grows_same(a: Net)
    ensures
        grows(a, a),
{
    reveal(grows);
    assert(a.templates.take(a.templates.len() as int) =~= a.templates);
    assert(a.steps.take(a.steps.len() as int) =~= a.steps);
    assert(a.waiting.take(a.waiting.len() as int) =~= a.waiting);
}

proof fn grows_trans(a: Net, b: Net, c: Net)
    requires
        grows(a, b),
        grows(b, c),
    ensures
        grows(a, c),
{
    reveal(grows);
    begins_trans(a.templates, b.templates, c.templates);
    begins_trans(a.steps, b.steps, c.steps);
    begins_trans(a.waiting, b.waiting, c.waiting);
}

proof fn step_grows(a: Net, step: StepView)
    ensures
        grows(a, net_steps::then_step(a, step)),
{
    reveal(grows);
    let b = net_steps::then_step(a, step);
    assert(b.templates.take(a.templates.len() as int) =~= a.templates);
    assert(b.steps.take(a.steps.len() as int) =~= a.steps);
    assert(b.waiting.take(a.waiting.len() as int) =~= a.waiting);
}

proof fn wait_grows(a: Net, id: nat, target: Spot)
    ensures
        grows(a, net_steps::awaited(a, id, target)),
{
    reveal(grows);
    let b = net_steps::awaited(a, id, target);
    assert(b.templates.take(a.templates.len() as int) =~= a.templates);
    assert(b.steps.take(a.steps.len() as int) =~= a.steps);
    assert(b.waiting.take(a.waiting.len() as int) =~= a.waiting);
}

proof fn data_grows(a: Net, data: DataView, target: Spot)
    ensures
        grows(a, net_steps::data_net(a, data, target)),
{
    let b = net_steps::then_step(a, StepView::Data(data));
    step_grows(a, StepView::Data(data));
    step_grows(b, StepView::Wire(net_steps::spot(a, Place::Result), target));
    grows_trans(a, b, net_steps::data_net(a, data, target));
}

proof fn bind_grows(a: Net, output: Spot)
    ensures
        grows(a, net_steps::bound(a, output).0),
{
    let b = net_steps::then_step(a, StepView::Bind);
    step_grows(a, StepView::Bind);
    step_grows(b, StepView::Wire(output, net_steps::spot(a, Place::Application)));
    grows_trans(a, b, net_steps::bound(a, output).0);
}

proof fn locals_grow(a: Net, output: Spot, ids: Seq<nat>)
    ensures
        grows(a, net_steps::applied_to_locals(a, output, ids).0),
    decreases ids.len(),
{
    grows_same(a);
    if ids.len() > 0 {
        locals_grow(a, output, ids.drop_last());
        let (before, out) = net_steps::applied_to_locals(a, output, ids.drop_last());
        let (opened, argument, _) = net_steps::bound(before, out);
        bind_grows(before, out);
        wait_grows(opened, ids.last(), argument);
        grows_trans(a, before, opened);
        grows_trans(a, opened, net_steps::awaited(opened, ids.last(), argument));
    }
}

proof fn locals_net_grows(a: Net, operator: OperatorView, ids: Seq<nat>, target: Spot)
    ensures
        grows(a, net_steps::locals_net(a, operator, ids, target)),
{
    let b = net_steps::then_step(a, StepView::Operator(operator));
    step_grows(a, StepView::Operator(operator));
    let (c, out) = net_steps::applied_to_locals(b, net_steps::spot(a, Place::Result), ids);
    locals_grow(b, net_steps::spot(a, Place::Result), ids);
    step_grows(c, StepView::Wire(out, target));
    grows_trans(a, b, c);
    grows_trans(a, c, net_steps::locals_net(a, operator, ids, target));
}

proof fn compiled_grows(a: Net, code: ResolvedExpr, target: Spot)
    ensures
        grows(a, net_steps::compiled(a, code, target)),
    decreases code, 0nat,
{
    let z = net_steps::compiled(a, code, target);
    match code {
        ResolvedExpr::Embedded(value) => {
            data_grows(a, DataView::Value(values::value_form(value)), target);
        },
        ResolvedExpr::Provided(value) => {
            data_grows(a, DataView::Value(values::value_form(value)), target);
        },
        ResolvedExpr::Local(id) => {
            wait_grows(a, id.0 as nat, target);
        },
        ResolvedExpr::List(items) => {
            if items@.len() == 0 {
                data_grows(a, DataView::Value(values::shaped(Shape::List, Seq::empty())), target);
            } else {
                let op = StepView::Operator(OperatorView::List(items@.len()));
                let b = net_steps::then_step(a, op);
                step_grows(a, op);
                let (c, out) = net_steps::applied_lazily(
                    b,
                    net_steps::spot(a, Place::Result),
                    items@,
                );
                lazily_grows(b, net_steps::spot(a, Place::Result), items@);
                step_grows(c, StepView::Wire(out, target));
                grows_trans(a, b, c);
                grows_trans(a, c, z);
            }
        },
        ResolvedExpr::Access { base, path } => {
            let op = StepView::Operator(OperatorView::Access(net_steps::path_keys(path@)));
            let b = net_steps::then_step(a, op);
            step_grows(a, op);
            let (c, argument, result) = net_steps::bound(b, net_steps::spot(a, Place::Result));
            bind_grows(b, net_steps::spot(a, Place::Result));
            let d = net_steps::compiled(c, *base, argument);
            compiled_grows(c, *base, argument);
            let (e, out) = net_steps::applied_to_path(d, result, path@);
            path_grows(d, result, path@);
            step_grows(e, StepView::Wire(out, target));
            grows_trans(a, b, c);
            grows_trans(a, c, d);
            grows_trans(a, d, e);
            grows_trans(a, e, z);
        },
        ResolvedExpr::Lambda(parameters, body) => {
            let ids = values::ids(parameters@);
            template_grows(a, ids, *body);
            let templates = net_steps::with_template(a.templates, ids, *body);
            let own = Net { templates, ..a };
            let t = (templates.len() - 1) as nat;
            let captures = net_steps::captured(ids, *body);
            if captures.len() == 0 {
                data_grows(own, DataView::Function(t), target);
            } else {
                locals_net_grows(own, OperatorView::CaptureFunction(t), captures, target);
            }
            grows_trans(a, own, z);
        },
        ResolvedExpr::Apply(function, arguments) => {
            let op = StepView::Operator(OperatorView::ApplyArity(arguments@.len()));
            let b = net_steps::then_step(a, op);
            step_grows(a, op);
            let (c, argument, result) = net_steps::bound(b, net_steps::spot(a, Place::Result));
            bind_grows(b, net_steps::spot(a, Place::Result));
            let d = net_steps::compiled(c, *function, argument);
            compiled_grows(c, *function, argument);
            let (e, out) = net_steps::applied_lazily(d, result, arguments@);
            lazily_grows(d, result, arguments@);
            step_grows(e, StepView::Wire(out, target));
            grows_trans(a, b, c);
            grows_trans(a, c, d);
            grows_trans(a, d, e);
            grows_trans(a, e, z);
        },
    }
}

/// A template comes after those before it.
proof fn template_grows(a: Net, ids: Seq<nat>, body: ResolvedExpr)
    ensures
        grows(a, (Net { templates: net_steps::with_template(a.templates, ids, body), ..a })),
        net_steps::with_template(a.templates, ids, body).len() > 0,
        begins(
            net_steps::finished(
                a.templates,
                net_steps::captured(ids, body) + ids,
                body,
            ).templates,
            net_steps::with_template(a.templates, ids, body),
        ),
    decreases body, 1nat,
{
    let inputs = net_steps::captured(ids, body) + ids;
    let empty = Net { templates: a.templates, steps: Seq::empty(), waiting: Seq::empty() };
    let begun = net_steps::then_step(empty, StepView::Copy(1));
    let net = net_steps::compiled(begun, body, body_port());
    compiled_grows(begun, body, body_port());
    let done = net_steps::closed_over(net, inputs);
    closing_keeps_templates(net, inputs);
    let all = net_steps::with_template(a.templates, ids, body);
    assert(begins(a.templates, net.templates)) by {
        reveal(grows);
    }
    assert(all.take(done.templates.len() as int) =~= done.templates);
    begins_trans(a.templates, done.templates, all);
    reveal(grows);
    assert(a.steps.take(a.steps.len() as int) =~= a.steps);
    assert(a.waiting.take(a.waiting.len() as int) =~= a.waiting);
}

proof fn closing_keeps_templates(net: Net, inputs: Seq<nat>)
    ensures
        net_steps::closed_over(net, inputs).templates == net.templates,
{
    if inputs.len() > 0 {
        let spine = net.steps.len();
        let opened = net_steps::wired(
            net_steps::then_step(net, StepView::BindSpine(inputs.len())),
            Spot { step: spine, place: Place::Result },
            Spot { step: 0, place: Place::Input },
        );
        sharing_keeps_templates(opened, spine, inputs);
    }
}

proof fn sharing_keeps_templates(net: Net, spine: nat, inputs: Seq<nat>)
    ensures
        net_steps::shared_out(net, spine, inputs).templates == net.templates,
    decreases inputs.len(),
{
    if inputs.len() > 0 {
        sharing_keeps_templates(net, spine, inputs.drop_last());
        let before = net_steps::shared_out(net, spine, inputs.drop_last());
        let id = inputs.last();
        let own = Net { waiting: net_steps::without(before.waiting, id), ..before };
        let targets = net_steps::ports_of(before.waiting, id);
        let copy = own.steps.len();
        fanning_keeps_templates(
            net_steps::wired(
                net_steps::then_step(own, StepView::Copy(targets.len())),
                Spot { step: spine, place: Place::Argument((inputs.len() - 1) as nat) },
                Spot { step: copy, place: Place::Input },
            ),
            copy,
            targets,
        );
    }
}

proof fn fanning_keeps_templates(net: Net, copy: nat, targets: Seq<Spot>)
    ensures
        net_steps::fanned(net, copy, targets).templates == net.templates,
    decreases targets.len(),
{
    if targets.len() > 0 {
        fanning_keeps_templates(net, copy, targets.drop_last());
    }
}

proof fn lazy_grows(a: Net, code: ResolvedExpr, target: Spot)
    ensures
        grows(a, net_steps::compiled_lazily(a, code, target)),
    decreases code, 2nat,
{
    let z = net_steps::compiled_lazily(a, code, target);
    match code {
        ResolvedExpr::Embedded(value) => {
            data_grows(a, DataView::Value(values::value_form(value)), target);
        },
        ResolvedExpr::Provided(value) => {
            data_grows(a, DataView::Value(values::value_form(value)), target);
        },
        _ => {
            template_grows(a, Seq::empty(), code);
            let templates = net_steps::with_template(a.templates, Seq::empty(), code);
            let own = Net { templates, ..a };
            let t = (templates.len() - 1) as nat;
            let captures = net_steps::captured(Seq::empty(), code);
            if captures.len() == 0 {
                data_grows(own, DataView::Computation(t), target);
            } else {
                locals_net_grows(own, OperatorView::CaptureComputation(t), captures, target);
            }
            grows_trans(a, own, z);
        },
    }
}

proof fn lazily_grows(a: Net, output: Spot, items: Seq<ResolvedExpr>)
    ensures
        grows(a, net_steps::applied_lazily(a, output, items).0),
    decreases items, 3nat,
{
    grows_same(a);
    if items.len() > 0 {
        lazily_grows(a, output, items.drop_last());
        let (before, out) = net_steps::applied_lazily(a, output, items.drop_last());
        let (opened, argument, _) = net_steps::bound(before, out);
        bind_grows(before, out);
        lazy_grows(opened, items.last(), argument);
        grows_trans(a, before, opened);
        grows_trans(a, opened, net_steps::compiled_lazily(opened, items.last(), argument));
    }
}

proof fn path_grows(a: Net, output: Spot, path: Seq<ResolvedPathPart>)
    ensures
        grows(a, net_steps::applied_to_path(a, output, path).0),
    decreases path, 3nat,
{
    grows_same(a);
    if path.len() > 0 {
        path_grows(a, output, path.drop_last());
        let (before, out) = net_steps::applied_to_path(a, output, path.drop_last());
        part_grows(before, out, path.last());
        grows_trans(a, before, net_steps::applied_to_part(before, out, path.last()).0);
    }
}

proof fn part_grows(a: Net, output: Spot, part: ResolvedPathPart)
    ensures
        grows(a, net_steps::applied_to_part(a, output, part).0),
    decreases part, 3nat,
{
    let (opened, argument, _) = net_steps::bound(a, output);
    bind_grows(a, output);
    grows_same(a);
    match part {
        ResolvedPathPart::Key(_) => {},
        ResolvedPathPart::Index(code) => {
            compiled_grows(opened, code, argument);
            grows_trans(a, opened, net_steps::compiled(opened, code, argument));
        },
        ResolvedPathPart::PathIndex(code) => {
            compiled_grows(opened, code, argument);
            grows_trans(a, opened, net_steps::compiled(opened, code, argument));
        },
    }
}

/// A complete net with its templates, and what its inputs and locals are.
pub struct Reading {
    pub ts: Seq<TemplateView>,
    pub n: nat,
    pub steps: Seq<StepView>,
    pub inputs: Seq<Code>,
    pub level: nat,
    pub env: Map<nat, Code>,
}

/// What comes to a port reads as code.
pub open spec fn at_port(c: Reading, port: Spot, code: Code) -> bool {
    carries(c.ts, c.n, c.steps, c.inputs, c.level, port, code)
}

/// A net was built from one to another on the way to a complete one, which
/// delivers the locals that were waited for.
#[verifier::opaque]
pub open spec fn situated(c: Reading, from: Net, to: Net) -> bool {
    &&& begins(to.steps, c.steps)
    &&& begins(to.templates, c.ts)
    &&& to.templates.len() <= c.n
    &&& forall|k: int|
        from.waiting.len() <= k < to.waiting.len() ==> arrives(
            c.steps,
            c.inputs,
            (#[trigger] to.waiting[k]).1,
            c.env[to.waiting[k].0],
        )
}

proof fn situated_between(c: Reading, from: Net, middle: Net, to: Net)
    requires
        situated(c, from, to),
        grows(from, middle),
        grows(middle, to),
    ensures
        situated(c, from, middle),
        situated(c, middle, to),
{
    reveal(situated);
    reveal(grows);
    begins_trans(middle.steps, to.steps, c.steps);
    begins_trans(middle.templates, to.templates, c.ts);
    assert forall|k: int| from.waiting.len() <= k < middle.waiting.len() implies arrives(
        c.steps,
        c.inputs,
        (#[trigger] middle.waiting[k]).1,
        c.env[middle.waiting[k].0],
    ) by {
        begins_at(middle.waiting, to.waiting, k);
        assert(to.waiting[k] == middle.waiting[k]);
    }
}

proof fn situated_step(c: Reading, from: Net, to: Net, k: int)
    requires
        situated(c, from, to),
        0 <= k < to.steps.len(),
    ensures
        c.steps[k] == to.steps[k],
        to.steps.len() <= c.steps.len(),
{
    reveal(situated);
    begins_at(to.steps, c.steps, k);
}

/// Data at a port.
proof fn data_reads(c: Reading, net: Net, data: DataView, target: Spot, code: Code)
    requires
        situated(c, net, net_steps::data_net(net, data, target)),
        holds(c.ts, c.n, c.level, data, code),
    ensures
        at_port(c, target, code),
{
    let to = net_steps::data_net(net, data, target);
    let k = net.steps.len() as int;
    situated_step(c, net, to, k);
    situated_step(c, net, to, k + 1);
    let source = net_steps::spot(net, Place::Result);
    assert(wire_at(c.steps, k + 1, source, target));
    assert(feeds(c.steps, source, target));
    assert(gives(c.ts, c.n, c.steps, c.inputs, c.level, source, code));
}

/// What an application adds to those before it.
proof fn bind_reads(
    c: Reading,
    net: Net,
    to: Net,
    output: Spot,
    operator: OperatorView,
    arguments: Seq<Spot>,
)
    requires
        situated(c, net, to),
        to == net_steps::bound(net, output).0,
        applied(c.steps, output, operator, arguments),
    ensures
        ({
            let (_, argument, result) = net_steps::bound(net, output);
            applied(c.steps, result, operator, arguments.push(argument))
        }),
{
    let (_, argument, result) = net_steps::bound(net, output);
    let k = net.steps.len() as int;
    situated_step(c, net, to, k);
    situated_step(c, net, to, k + 1);
    let here = Spot { step: result.step, place: Place::Application };
    assert(wire_at(c.steps, k + 1, output, here));
    assert(feeds(c.steps, output, here));
    let more = arguments.push(argument);
    assert(more.drop_last() =~= arguments);
}

/// The operator that begins an application.
proof fn operator_reads(c: Reading, net: Net, to: Net, operator: OperatorView)
    requires
        situated(c, net, to),
        grows(net_steps::then_step(net, StepView::Operator(operator)), to),
    ensures
        applied(c.steps, net_steps::spot(net, Place::Result), operator, Seq::empty()),
{
    let b = net_steps::then_step(net, StepView::Operator(operator));
    let k = net.steps.len() as int;
    assert(to.steps[k] == b.steps[k] && k < to.steps.len()) by {
        reveal(grows);
        begins_at(b.steps, to.steps, k);
    }
    situated_step(c, net, to, k);
}

/// An application whose result goes to a port.
proof fn delivery_reads(
    c: Reading,
    net: Net,
    to: Net,
    output: Spot,
    target: Spot,
    operator: OperatorView,
    arguments: Seq<Spot>,
    code: Code,
)
    requires
        situated(c, net, to),
        to == net_steps::wired(net, output, target),
        applied(c.steps, output, operator, arguments),
        operates(c.ts, c.n, c.steps, c.inputs, c.level, operator, arguments, code),
    ensures
        at_port(c, target, code),
{
    let k = net.steps.len() as int;
    situated_step(c, net, to, k);
    assert(wire_at(c.steps, k, output, target));
    assert(feeds(c.steps, output, target));
    assert(gives(c.ts, c.n, c.steps, c.inputs, c.level, output, code));
}

/// Applications to locals.
proof fn locals_read(
    c: Reading,
    net: Net,
    output: Spot,
    ids: Seq<nat>,
    operator: OperatorView,
    before: Seq<Spot>,
) -> (ports: Seq<Spot>)
    requires
        situated(c, net, net_steps::applied_to_locals(net, output, ids).0),
        applied(c.steps, output, operator, before),
    ensures
        applied(
            c.steps,
            net_steps::applied_to_locals(net, output, ids).1,
            operator,
            before + ports,
        ),
        ports.len() == ids.len(),
        forall|k: int|
            0 <= k < ids.len() ==> arrives(c.steps, c.inputs, #[trigger] ports[k], c.env[ids[k]]),
    decreases ids.len(),
{
    if ids.len() == 0 {
        assert(before + Seq::<Spot>::empty() =~= before);
        Seq::empty()
    } else {
        let front = ids.drop_last();
        let (mid, out) = net_steps::applied_to_locals(net, output, front);
        let (opened, argument, result) = net_steps::bound(mid, out);
        let to = net_steps::awaited(opened, ids.last(), argument);
        locals_grow(net, output, front);
        bind_grows(mid, out);
        wait_grows(opened, ids.last(), argument);
        grows_trans(mid, opened, to);
        situated_between(c, net, mid, to);
        situated_between(c, mid, opened, to);
        let done = locals_read(c, net, output, front, operator, before);
        bind_reads(c, mid, opened, out, operator, before + done);
        let ports = done.push(argument);
        assert((before + done).push(argument) =~= before + ports);
        assert forall|k: int| 0 <= k < ids.len() implies arrives(
            c.steps,
            c.inputs,
            #[trigger] ports[k],
            c.env[ids[k]],
        ) by {
            if k < front.len() {
                assert(ports[k] == done[k]);
                assert(front[k] == ids[k]);
            } else {
                reveal(situated);
                let w = opened.waiting.len() as int;
                assert(to.waiting[w] == (ids.last(), argument));
            }
        }
        ports
    }
}

/// An operator on locals at a port.
proof fn captures_read(
    c: Reading,
    net: Net,
    operator: OperatorView,
    ids: Seq<nat>,
    target: Spot,
    captured: Seq<Code>,
    code: Code,
)
    requires
        situated(c, net, net_steps::locals_net(net, operator, ids, target)),
        captured.len() == ids.len(),
        forall|k: int| 0 <= k < ids.len() ==> #[trigger] captured[k] == c.env[ids[k]],
        forall|ports: Seq<Spot>|
            #[trigger] all_arrive(c.steps, c.inputs, ports, captured) ==> operates(
                c.ts,
                c.n,
                c.steps,
                c.inputs,
                c.level,
                operator,
                ports,
                code,
            ),
    ensures
        at_port(c, target, code),
{
    let start = net_steps::spot(net, Place::Result);
    let b = net_steps::then_step(net, StepView::Operator(operator));
    let (d, out) = net_steps::applied_to_locals(b, start, ids);
    let to = net_steps::wired(d, out, target);
    step_grows(net, StepView::Operator(operator));
    locals_grow(b, start, ids);
    step_grows(d, StepView::Wire(out, target));
    grows_trans(b, d, to);
    operator_reads(c, net, to, operator);
    situated_between(c, net, b, to);
    situated_between(c, b, d, to);
    let ports = locals_read(c, b, start, ids, operator, Seq::empty());
    assert(Seq::<Spot>::empty() + ports =~= ports);
    assert(all_arrive(c.steps, c.inputs, ports, captured)) by {
        assert forall|k: int| 0 <= k < ports.len() implies arrives(
            c.steps,
            c.inputs,
            #[trigger] ports[k],
            captured[k],
        ) by {
            assert(captured[k] == c.env[ids[k]]);
        }
    }
    delivery_reads(c, d, to, out, target, operator, ports, code);
}

/// Where a number first occurs, or `-1`.
pub open spec fn first_of(ids: Seq<nat>, id: nat) -> int
    decreases ids.len(),
{
    if ids.len() == 0 {
        -1
    } else {
        let before = first_of(ids.drop_last(), id);
        if before >= 0 {
            before
        } else if ids.last() == id {
            ids.len() - 1
        } else {
            -1
        }
    }
}

pub proof fn first_of_found(ids: Seq<nat>, id: nat)
    ensures
        first_of(ids, id) >= 0 <==> ids.contains(id),
        first_of(ids, id) >= 0 ==> first_of(ids, id) < ids.len() && ids[first_of(ids, id)] == id,
        forall|k: int| 0 <= k < first_of(ids, id) ==> #[trigger] ids[k] != id,
    decreases ids.len(),
{
    if ids.len() > 0 {
        let front = ids.drop_last();
        first_of_found(front, id);
        if ids.contains(id) {
            let k = choose|k: int| 0 <= k < ids.len() && ids[k] == id;
            if k < front.len() {
                assert(front[k] == id);
                assert(front.contains(id));
            }
        }
        assert forall|k: int| 0 <= k < first_of(ids, id) implies #[trigger] ids[k] != id by {
            assert(front[k] == ids[k]);
            if first_of(front, id) < 0 {
                assert(!front.contains(front[k]) || front[k] != id);
            }
        }
        if first_of(ids, id) >= 0 {
            assert(ids[first_of(ids, id)] == id);
        }
    }
}

/// A port is linked to an argument of a spine by the output `j` of the copy `c`.
pub open spec fn linked(
    steps: Seq<StepView>,
    spine: nat,
    i: nat,
    port: Spot,
    c: nat,
    j: nat,
) -> bool {
    &&& c < steps.len()
    &&& steps[c as int] is Copy
    &&& feeds(steps, Spot { step: c, place: Place::Output(j) }, port)
    &&& feeds(
        steps,
        Spot { step: spine, place: Place::Argument(i) },
        Spot { step: c, place: Place::Input },
    )
}

pub open spec fn links(steps: Seq<StepView>, spine: nat, i: nat, port: Spot) -> bool {
    exists|c: nat, j: nat| #[trigger] linked(steps, spine, i, port, c, j)
}

proof fn feeds_later(a: Seq<StepView>, b: Seq<StepView>, source: Spot, port: Spot)
    requires
        begins(a, b),
        feeds(a, source, port),
    ensures
        feeds(b, source, port),
{
    let k = choose|k: int| #[trigger] wire_at(a, k, source, port);
    begins_at(a, b, k);
    assert(wire_at(b, k, source, port));
}

proof fn links_later(a: Seq<StepView>, b: Seq<StepView>, spine: nat, i: nat, port: Spot)
    requires
        begins(a, b),
        links(a, spine, i, port),
    ensures
        links(b, spine, i, port),
{
    let (c, j) = choose|c: nat, j: nat| #[trigger] linked(a, spine, i, port, c, j);
    begins_at(a, b, c as int);
    feeds_later(a, b, Spot { step: c, place: Place::Output(j) }, port);
    feeds_later(
        a,
        b,
        Spot { step: spine, place: Place::Argument(i) },
        Spot { step: c, place: Place::Input },
    );
    assert(linked(b, spine, i, port, c, j));
}

proof fn fanned_feeds(net: Net, copy: nat, targets: Seq<Spot>)
    ensures
        begins(net.steps, net_steps::fanned(net, copy, targets).steps),
        forall|j: int|
            0 <= j < targets.len() ==> feeds(
                net_steps::fanned(net, copy, targets).steps,
                Spot { step: copy, place: Place::Output(j as nat) },
                #[trigger] targets[j],
            ),
    decreases targets.len(),
{
    let all = net_steps::fanned(net, copy, targets).steps;
    if targets.len() == 0 {
        assert(net.steps.take(net.steps.len() as int) =~= net.steps);
    } else {
        let front = targets.drop_last();
        fanned_feeds(net, copy, front);
        let before = net_steps::fanned(net, copy, front).steps;
        assert(all.take(before.len() as int) =~= before);
        begins_trans(net.steps, before, all);
        assert forall|j: int| 0 <= j < targets.len() implies feeds(
            all,
            Spot { step: copy, place: Place::Output(j as nat) },
            #[trigger] targets[j],
        ) by {
            let source = Spot { step: copy, place: Place::Output(j as nat) };
            if j < front.len() {
                assert(front[j] == targets[j]);
                feeds_later(before, all, source, targets[j]);
            } else {
                assert(wire_at(all, before.len() as int, source, targets[j]));
            }
        }
    }
}

proof fn ports_hold(waiting: Seq<(nat, Spot)>, id: nat, port: Spot)
    requires
        waiting.contains((id, port)),
    ensures
        net_steps::ports_of(waiting, id).contains(port),
        forall|other: nat|
            other != id ==> #[trigger] net_steps::without(waiting, other).contains((id, port)),
    decreases waiting.len(),
{
    let k = choose|k: int| 0 <= k < waiting.len() && waiting[k] == (id, port);
    let front = waiting.drop_last();
    if k < front.len() {
        assert(front[k] == (id, port));
        ports_hold(front, id, port);
        let found = net_steps::ports_of(front, id);
        let i = choose|i: int| 0 <= i < found.len() && found[i] == port;
        assert(net_steps::ports_of(waiting, id)[i] == port);
        assert forall|other: nat| other != id implies #[trigger] net_steps::without(
            waiting,
            other,
        ).contains((id, port)) by {
            let rest = net_steps::without(front, other);
            assert(rest.contains((id, port)));
            let i = choose|i: int| 0 <= i < rest.len() && rest[i] == (id, port);
            assert(net_steps::without(waiting, other)[i] == (id, port));
        }
    } else {
        let found = net_steps::ports_of(waiting, id);
        assert(found[found.len() - 1] == port);
        assert forall|other: nat| other != id implies #[trigger] net_steps::without(
            waiting,
            other,
        ).contains((id, port)) by {
            let rest = net_steps::without(waiting, other);
            assert(rest[rest.len() - 1] == (id, port));
        }
    }
}

/// Every port that waits for a local is linked to the first input of that name.
proof fn sharing_links(net: Net, spine: nat, inputs: Seq<nat>)
    ensures
        begins(net.steps, net_steps::shared_out(net, spine, inputs).steps),
        forall|k: int|
            0 <= k < net.waiting.len() ==> {
                let (id, port) = #[trigger] net.waiting[k];
                let after = net_steps::shared_out(net, spine, inputs);
                if first_of(inputs, id) >= 0 {
                    links(after.steps, spine, first_of(inputs, id) as nat, port)
                } else {
                    after.waiting.contains((id, port))
                }
            },
    decreases inputs.len(),
{
    let after = net_steps::shared_out(net, spine, inputs);
    if inputs.len() == 0 {
        assert(net.steps.take(net.steps.len() as int) =~= net.steps);
    } else {
        let front = inputs.drop_last();
        sharing_links(net, spine, front);
        let before = net_steps::shared_out(net, spine, front);
        let last = inputs.last();
        let own = Net { waiting: net_steps::without(before.waiting, last), ..before };
        let targets = net_steps::ports_of(before.waiting, last);
        let copy = own.steps.len();
        let i = (inputs.len() - 1) as nat;
        let source = Spot { step: spine, place: Place::Argument(i) };
        let entry = Spot { step: copy, place: Place::Input };
        let opened = net_steps::wired(
            net_steps::then_step(own, StepView::Copy(targets.len())),
            source,
            entry,
        );
        fanned_feeds(opened, copy, targets);
        fanned_waits(opened, copy, targets);
        assert(opened.steps.take(before.steps.len() as int) =~= before.steps);
        begins_trans(before.steps, opened.steps, after.steps);
        begins_trans(net.steps, before.steps, after.steps);
        assert(wire_at(opened.steps, copy as int + 1, source, entry));
        feeds_later(opened.steps, after.steps, source, entry);
        begins_at(opened.steps, after.steps, copy as int);
        assert forall|k: int| 0 <= k < net.waiting.len() implies {
            let (id, port) = #[trigger] net.waiting[k];
            if first_of(inputs, id) >= 0 {
                links(after.steps, spine, first_of(inputs, id) as nat, port)
            } else {
                after.waiting.contains((id, port))
            }
        } by {
            let (id, port) = net.waiting[k];
            if first_of(front, id) >= 0 {
                links_later(
                    before.steps,
                    after.steps,
                    spine,
                    first_of(front, id) as nat,
                    port,
                );
            } else {
                assert(before.waiting.contains((id, port)));
                ports_hold(before.waiting, id, port);
                if last == id {
                    let j = choose|j: int| 0 <= j < targets.len() && targets[j] == port;
                    assert(feeds(
                        after.steps,
                        Spot { step: copy, place: Place::Output(j as nat) },
                        targets[j],
                    ));
                    assert(linked(after.steps, spine, i, port, copy, j as nat));
                } else {
                    assert(net_steps::without(before.waiting, last).contains((id, port)));
                }
            }
        }
    }
}

proof fn fanned_waits(net: Net, copy: nat, targets: Seq<Spot>)
    ensures
        net_steps::fanned(net, copy, targets).waiting == net.waiting,
    decreases targets.len(),
{
    if targets.len() > 0 {
        fanned_waits(net, copy, targets.drop_last());
    }
}

/// The complete net of a body: it opens with its inputs, and every port that
/// waited gets the first input of its name.
proof fn closing_delivers(net: Net, inputs: Seq<nat>)
    requires
        net.steps.len() > 0,
        net.steps[0] == StepView::Copy(1),
    ensures
        ({
            let steps = net_steps::closed_over(net, inputs).steps;
            &&& begins(net.steps, steps)
            &&& opens(steps, inputs.len())
            &&& forall|k: int|
                0 <= k < net.waiting.len() && inputs.contains((#[trigger] net.waiting[k]).0)
                    ==> gets(
                    steps,
                    net.waiting[k].1,
                    first_of(inputs, net.waiting[k].0) as nat,
                )
        }),
{
    let steps = net_steps::closed_over(net, inputs).steps;
    let boundary = Spot { step: 0, place: Place::Input };
    if inputs.len() == 0 {
        assert(steps.take(net.steps.len() as int) =~= net.steps);
        assert(steps[0] == net.steps[0]);
        assert forall|k: int|
            0 <= k < net.waiting.len() && inputs.contains((#[trigger] net.waiting[k]).0) implies gets(
            steps,
            net.waiting[k].1,
            first_of(inputs, net.waiting[k].0) as nat,
        ) by {
            assert(false);
        }
    } else {
        let spine = net.steps.len();
        let result = Spot { step: spine, place: Place::Result };
        let opened = net_steps::wired(
            net_steps::then_step(net, StepView::BindSpine(inputs.len())),
            result,
            boundary,
        );
        let shared = net_steps::shared_out(opened, spine, inputs);
        sharing_links(opened, spine, inputs);
        assert(opened.steps.take(net.steps.len() as int) =~= net.steps);
        assert(steps.take(shared.steps.len() as int) =~= shared.steps);
        begins_trans(opened.steps, shared.steps, steps);
        begins_trans(net.steps, opened.steps, steps);
        begins_at(opened.steps, steps, spine as int);
        begins_at(net.steps, steps, 0);
        assert(wire_at(opened.steps, spine as int + 1, result, boundary));
        feeds_later(opened.steps, steps, result, boundary);
        assert(steps.last() == StepView::Finish(Spot { step: spine, place: Place::Input }));
        assert forall|k: int|
            0 <= k < net.waiting.len() && inputs.contains((#[trigger] net.waiting[k]).0) implies gets(
            steps,
            net.waiting[k].1,
            first_of(inputs, net.waiting[k].0) as nat,
        ) by {
            let (id, port) = net.waiting[k];
            assert(opened.waiting[k] == net.waiting[k]);
            first_of_found(inputs, id);
            let i = first_of(inputs, id) as nat;
            assert(links(shared.steps, spine, i, port));
            links_later(shared.steps, steps, spine, i, port);
            let (c, j) = choose|c: nat, j: nat| #[trigger] linked(steps, spine, i, port, c, j);
            assert(copied(steps, port, i, c, j));
        }
    }
}

pub proof fn numbered_locals(env: Map<nat, Code>, ids: Seq<nat>, level: nat, id: nat)
    ensures
        first_of(ids, id) >= 0 ==> numbered(env, ids, level)[id] == Code::Bound(
            (level + first_of(ids, id)) as nat,
        ),
        first_of(ids, id) < 0 ==> numbered(env, ids, level)[id] == env[id],
    decreases ids.len(),
{
    first_of_found(ids, id);
    if ids.len() > 0 {
        let front = ids.drop_last();
        let more = env.insert(ids.last(), Code::Bound((level + ids.len() - 1) as nat));
        numbered_locals(more, front, level, id);
    }
}

proof fn first_of_sum(a: Seq<nat>, b: Seq<nat>, id: nat)
    ensures
        first_of(a + b, id) == if first_of(a, id) >= 0 {
            first_of(a, id)
        } else if first_of(b, id) >= 0 {
            a.len() + first_of(b, id)
        } else {
            -1
        },
    decreases b.len(),
{
    if b.len() == 0 {
        assert(a + b =~= a);
    } else {
        first_of_sum(a, b.drop_last(), id);
        assert((a + b).drop_last() =~= a + b.drop_last());
        assert((a + b).last() == b.last());
    }
}

/// A template reads as the function that it was made from.
proof fn template_reads(
    ts: Seq<TemplateView>,
    templates: Seq<TemplateView>,
    parameters: Seq<BindingId>,
    body: ResolvedExpr,
    captured: Seq<Code>,
    level: nat,
    env: Map<nat, Code>,
)
    requires
        begins(net_steps::with_template(templates, values::ids(parameters), body), ts),
        captured.len() == net_steps::captured(values::ids(parameters), body).len(),
        forall|k: int|
            0 <= k < captured.len() ==> #[trigger] captured[k] == env[net_steps::captured(
                values::ids(parameters),
                body,
            )[k]],
    ensures
        ({
            let ids = values::ids(parameters);
            let t = (net_steps::with_template(templates, ids, body).len() - 1) as nat;
            &&& net_steps::with_template(templates, ids, body).len() > 0
            &&& ts[t as int].arity == parameters.len()
            &&& ts[t as int].captures.len() == captured.len()
            &&& opens(ts[t as int].steps, captured.len() + parameters.len())
            &&& carries(
                ts,
                t,
                ts[t as int].steps,
                captured + bounds(level, parameters.len()),
                level + parameters.len(),
                body_port(),
                leveled(numbered(env, ids, level), level + parameters.len(), body),
            )
        }),
    decreases body, 1nat,
{
    let ids = values::ids(parameters);
    let arity = parameters.len();
    let captures = net_steps::captured(ids, body);
    let inputs = captures + ids;
    let all = net_steps::with_template(templates, ids, body);
    let t = (all.len() - 1) as nat;
    let empty = Net { templates, steps: Seq::empty(), waiting: Seq::empty() };
    let begun = net_steps::then_step(empty, StepView::Copy(1));
    let net = net_steps::compiled(begun, body, body_port());
    let done = net_steps::closed_over(net, inputs);
    compiled_grows(begun, body, body_port());
    closing_keeps_templates(net, inputs);
    begins_at(all, ts, t as int);
    assert(ts[t as int] == all[t as int]);
    assert(all[t as int].steps == done.steps);
    assert(begins(begun.steps, net.steps)) by {
        reveal(grows);
    }
    begins_at(begun.steps, net.steps, 0);
    closing_delivers(net, inputs);
    let given = captured + bounds(level, arity);
    let own = numbered(env, ids, level);
    let c = Reading { ts, n: t, steps: done.steps, inputs: given, level: level + arity, env: own };
    net_steps::compiled_waits(begun, body, body_port());
    net_steps::captured_is_free(parameters, body);
    assert(situated(c, begun, net)) by {
        reveal(situated);
        assert(all.take(t as int) =~= net.templates);
        assert(begins(net.templates, all));
        begins_trans(net.templates, all, ts);
        assert forall|k: int| begun.waiting.len() <= k < net.waiting.len() implies arrives(
            c.steps,
            c.inputs,
            (#[trigger] net.waiting[k]).1,
            c.env[net.waiting[k].0],
        ) by {
            let (id, port) = net.waiting[k];
            assert(net_lowering::free(body).contains(id));
            first_of_found(inputs, id);
            first_of_found(captures, id);
            first_of_found(ids, id);
            first_of_sum(captures, ids, id);
            numbered_locals(env, ids, level, id);
            assert(captures.contains(id) || ids.contains(id)) by {
                if !ids.contains(id) {
                    assert(!ids.to_set().contains(id));
                    assert(captures.to_set().contains(id));
                }
            }
            assert(inputs.contains(id)) by {
                assert(first_of(inputs, id) >= 0);
            }
            let i = first_of(inputs, id);
            assert(gets(c.steps, port, i as nat));
            if first_of(captures, id) >= 0 {
                assert(!ids.contains(id)) by {
                    let j = first_of(captures, id);
                    assert(!ids.to_set().contains(captures[j]));
                    if ids.contains(id) {
                        assert(ids.to_set().contains(id));
                    }
                }
                assert(given[i] == captured[i]);
                assert(captured[i] == env[captures[i]]);
            } else {
                let j = first_of(ids, id);
                assert(given[i] == bounds(level, arity)[j]);
            }
            assert(given[i] == own[id]);
        }
    }
    compiled_reads(c, begun, body, body_port());
}

/// What is compiled to a port reads as the code that was compiled.
proof fn compiled_reads(c: Reading, net: Net, code: ResolvedExpr, target: Spot)
    requires
        situated(c, net, net_steps::compiled(net, code, target)),
    ensures
        at_port(c, target, leveled(c.env, c.level, code)),
    decreases code, 0nat,
{
    let to = net_steps::compiled(net, code, target);
    let goal = leveled(c.env, c.level, code);
    match code {
        ResolvedExpr::Embedded(value) => {
            data_reads(c, net, DataView::Value(values::value_form(value)), target, goal);
        },
        ResolvedExpr::Provided(value) => {
            data_reads(c, net, DataView::Value(values::value_form(value)), target, goal);
        },
        ResolvedExpr::Local(id) => {
            reveal(situated);
            let w = net.waiting.len() as int;
            assert(to.waiting[w] == (id.0 as nat, target));
            assert(arrives(c.steps, c.inputs, target, goal));
        },
        ResolvedExpr::List(items) => {
            if items@.len() == 0 {
                let form = values::shaped(Shape::List, Seq::empty());
                data_reads(c, net, DataView::Value(form), target, goal);
            } else {
                let operator = OperatorView::List(items@.len());
                let start = net_steps::spot(net, Place::Result);
                let b = net_steps::then_step(net, StepView::Operator(operator));
                let (d, out) = net_steps::applied_lazily(b, start, items@);
                step_grows(net, StepView::Operator(operator));
                lazily_grows(b, start, items@);
                step_grows(d, StepView::Wire(out, target));
                grows_trans(b, d, to);
                operator_reads(c, net, to, operator);
                situated_between(c, net, b, to);
                situated_between(c, b, d, to);
                let ports = lazily_reads(c, b, start, items@, operator, Seq::empty());
                assert(Seq::<Spot>::empty() + ports =~= ports);
                let codes = leveled_all(c.env, c.level, items@);
                assert(goal == Code::List(codes));
                assert(codes.len() == items@.len());
                delivery_reads(c, d, to, out, target, operator, ports, goal);
            }
        },
        ResolvedExpr::Access { base, path } => {
            let operator = OperatorView::Access(net_steps::path_keys(path@));
            let start = net_steps::spot(net, Place::Result);
            let b = net_steps::then_step(net, StepView::Operator(operator));
            let (o, argument, result) = net_steps::bound(b, start);
            let d = net_steps::compiled(o, *base, argument);
            let (e, out) = net_steps::applied_to_path(d, result, path@);
            step_grows(net, StepView::Operator(operator));
            bind_grows(b, start);
            compiled_grows(o, *base, argument);
            path_grows(d, result, path@);
            step_grows(e, StepView::Wire(out, target));
            grows_trans(d, e, to);
            grows_trans(o, d, to);
            grows_trans(b, o, to);
            operator_reads(c, net, to, operator);
            situated_between(c, net, b, to);
            situated_between(c, b, o, to);
            situated_between(c, o, d, to);
            situated_between(c, d, e, to);
            bind_reads(c, b, o, start, operator, Seq::empty());
            assert(Seq::<Spot>::empty().push(argument) =~= seq![argument]);
            compiled_reads(c, o, *base, argument);
            let more = path_reads(c, d, result, path@, operator, seq![argument]);
            let ports = seq![argument] + more;
            kinds_of_keys(path@);
            let computed = leveled_path(c.env, c.level, path@);
            assert(operates(
                c.ts,
                c.n,
                c.steps,
                c.inputs,
                c.level,
                operator,
                ports,
                goal,
            )) by {
                assert(ports[0] == argument);
                assert forall|k: int| 0 <= k < computed.len() implies carries(
                    c.ts,
                    c.n,
                    c.steps,
                    c.inputs,
                    c.level,
                    #[trigger] ports[k + 1],
                    computed[k],
                ) by {
                    assert(ports[k + 1] == more[k]);
                    assert(at_port(c, more[k], computed[k]));
                }
            }
            delivery_reads(c, e, to, out, target, operator, ports, goal);
        },
        ResolvedExpr::Lambda(parameters, body) => {
            let ids = values::ids(parameters@);
            let captures = net_steps::captured(ids, *body);
            let templates = net_steps::with_template(net.templates, ids, *body);
            let own = Net { templates, ..net };
            let t = (templates.len() - 1) as nat;
            let captured = captures.map_values(|id: nat| c.env[id]);
            template_grows(net, ids, *body);
            if captures.len() == 0 {
                data_grows(own, DataView::Function(t), target);
            } else {
                locals_net_grows(own, OperatorView::CaptureFunction(t), captures, target);
            }
            situated_between(c, net, own, to);
            assert(begins(templates, c.ts) && templates.len() <= c.n) by {
                reveal(situated);
            }
            template_reads(c.ts, net.templates, parameters@, *body, captured, c.level, c.env);
            assert(function_reads(c.ts, t, captured, c.level, goal));
            if captures.len() == 0 {
                assert(captured =~= Seq::empty());
                data_reads(c, own, DataView::Function(t), target, goal);
            } else {
                captures_read(
                    c,
                    own,
                    OperatorView::CaptureFunction(t),
                    captures,
                    target,
                    captured,
                    goal,
                );
            }
        },
        ResolvedExpr::Apply(function, arguments) => {
            let operator = OperatorView::ApplyArity(arguments@.len());
            let start = net_steps::spot(net, Place::Result);
            let b = net_steps::then_step(net, StepView::Operator(operator));
            let (o, argument, result) = net_steps::bound(b, start);
            let d = net_steps::compiled(o, *function, argument);
            let (e, out) = net_steps::applied_lazily(d, result, arguments@);
            step_grows(net, StepView::Operator(operator));
            bind_grows(b, start);
            compiled_grows(o, *function, argument);
            lazily_grows(d, result, arguments@);
            step_grows(e, StepView::Wire(out, target));
            grows_trans(d, e, to);
            grows_trans(o, d, to);
            grows_trans(b, o, to);
            operator_reads(c, net, to, operator);
            situated_between(c, net, b, to);
            situated_between(c, b, o, to);
            situated_between(c, o, d, to);
            situated_between(c, d, e, to);
            bind_reads(c, b, o, start, operator, Seq::empty());
            assert(Seq::<Spot>::empty().push(argument) =~= seq![argument]);
            compiled_reads(c, o, *function, argument);
            let more = lazily_reads(c, d, result, arguments@, operator, seq![argument]);
            let ports = seq![argument] + more;
            let codes = leveled_all(c.env, c.level, arguments@);
            assert(operates(
                c.ts,
                c.n,
                c.steps,
                c.inputs,
                c.level,
                operator,
                ports,
                goal,
            )) by {
                assert(ports[0] == argument);
                assert forall|k: int| 0 <= k < codes.len() implies carries(
                    c.ts,
                    c.n,
                    c.steps,
                    c.inputs,
                    c.level,
                    #[trigger] ports[k + 1],
                    codes[k],
                ) by {
                    assert(ports[k + 1] == more[k]);
                    assert(at_port(c, more[k], codes[k]));
                }
            }
            delivery_reads(c, e, to, out, target, operator, ports, goal);
        },
    }
}

proof fn kinds_of_keys(path: Seq<ResolvedPathPart>)
    ensures
        key_kinds(path) == net_steps::path_keys(path),
    decreases path.len(),
{
    if path.len() == 0 {
        assert(key_kinds(path) =~= net_steps::path_keys(path));
    } else {
        kinds_of_keys(path.drop_last());
        assert(net_steps::path_keys(path).drop_last() =~= net_steps::path_keys(path.drop_last()));
        assert(key_kinds(path) =~= net_steps::path_keys(path));
    }
}

/// A computation at a port reads as its code.
proof fn lazy_reads(c: Reading, net: Net, code: ResolvedExpr, target: Spot)
    requires
        situated(c, net, net_steps::compiled_lazily(net, code, target)),
    ensures
        at_port(c, target, leveled(c.env, c.level, code)),
    decreases code, 2nat,
{
    let to = net_steps::compiled_lazily(net, code, target);
    let goal = leveled(c.env, c.level, code);
    if let ResolvedExpr::Embedded(value) = code {
        data_reads(c, net, DataView::Value(values::value_form(value)), target, goal);
    } else if let ResolvedExpr::Provided(value) = code {
        data_reads(c, net, DataView::Value(values::value_form(value)), target, goal);
    } else {
        let none = Seq::<BindingId>::empty();
        assert(values::ids(none) =~= Seq::empty());
        let captures = net_steps::captured(Seq::empty(), code);
        let templates = net_steps::with_template(net.templates, Seq::empty(), code);
        let own = Net { templates, ..net };
        let t = (templates.len() - 1) as nat;
        let captured = captures.map_values(|id: nat| c.env[id]);
        template_grows(net, Seq::empty(), code);
        if captures.len() == 0 {
            data_grows(own, DataView::Computation(t), target);
        } else {
            locals_net_grows(own, OperatorView::CaptureComputation(t), captures, target);
        }
        situated_between(c, net, own, to);
        assert(begins(templates, c.ts) && templates.len() <= c.n) by {
            reveal(situated);
        }
        template_reads(c.ts, net.templates, none, code, captured, c.level, c.env);
        assert(captured + bounds(c.level, 0) =~= captured);
        if captures.len() == 0 {
            assert(captured =~= Seq::empty());
            data_reads(c, own, DataView::Computation(t), target, goal);
        } else {
            captures_read(
                c,
                own,
                OperatorView::CaptureComputation(t),
                captures,
                target,
                captured,
                goal,
            );
        }
    }
}

/// Applications to computations.
proof fn lazily_reads(
    c: Reading,
    net: Net,
    output: Spot,
    items: Seq<ResolvedExpr>,
    operator: OperatorView,
    before: Seq<Spot>,
) -> (ports: Seq<Spot>)
    requires
        situated(c, net, net_steps::applied_lazily(net, output, items).0),
        applied(c.steps, output, operator, before),
    ensures
        applied(
            c.steps,
            net_steps::applied_lazily(net, output, items).1,
            operator,
            before + ports,
        ),
        ports.len() == items.len(),
        leveled_all(c.env, c.level, items).len() == items.len(),
        forall|k: int|
            0 <= k < items.len() ==> at_port(
                c,
                #[trigger] ports[k],
                leveled_all(c.env, c.level, items)[k],
            ),
    decreases items, 3nat,
{
    if items.len() == 0 {
        assert(before + Seq::<Spot>::empty() =~= before);
        Seq::empty()
    } else {
        let front = items.drop_last();
        let (mid, out) = net_steps::applied_lazily(net, output, front);
        let (opened, argument, result) = net_steps::bound(mid, out);
        let to = net_steps::compiled_lazily(opened, items.last(), argument);
        lazily_grows(net, output, front);
        bind_grows(mid, out);
        lazy_grows(opened, items.last(), argument);
        grows_trans(mid, opened, to);
        situated_between(c, net, mid, to);
        situated_between(c, mid, opened, to);
        let done = lazily_reads(c, net, output, front, operator, before);
        bind_reads(c, mid, opened, out, operator, before + done);
        lazy_reads(c, opened, items.last(), argument);
        let ports = done.push(argument);
        assert((before + done).push(argument) =~= before + ports);
        let codes = leveled_all(c.env, c.level, items);
        assert forall|k: int| 0 <= k < items.len() implies at_port(
            c,
            #[trigger] ports[k],
            codes[k],
        ) by {
            if k < front.len() {
                assert(ports[k] == done[k]);
                assert(codes[k] == leveled_all(c.env, c.level, front)[k]);
            }
        }
        ports
    }
}

/// Applications to the computed components of a path.
proof fn path_reads(
    c: Reading,
    net: Net,
    output: Spot,
    path: Seq<ResolvedPathPart>,
    operator: OperatorView,
    before: Seq<Spot>,
) -> (ports: Seq<Spot>)
    requires
        situated(c, net, net_steps::applied_to_path(net, output, path).0),
        applied(c.steps, output, operator, before),
    ensures
        applied(
            c.steps,
            net_steps::applied_to_path(net, output, path).1,
            operator,
            before + ports,
        ),
        ports.len() == leveled_path(c.env, c.level, path).len(),
        forall|k: int|
            0 <= k < ports.len() ==> at_port(
                c,
                #[trigger] ports[k],
                leveled_path(c.env, c.level, path)[k],
            ),
    decreases path, 3nat,
{
    if path.len() == 0 {
        assert(before + Seq::<Spot>::empty() =~= before);
        Seq::empty()
    } else {
        let front = path.drop_last();
        let part = path.last();
        let (mid, out) = net_steps::applied_to_path(net, output, front);
        let to = net_steps::applied_to_part(mid, out, part).0;
        path_grows(net, output, front);
        part_grows(mid, out, part);
        situated_between(c, net, mid, to);
        let done = path_reads(c, net, output, front, operator, before);
        let last = part_reads(c, mid, out, part, operator, before + done);
        let ports = done + last;
        assert((before + done) + last =~= before + ports);
        let codes = leveled_path(c.env, c.level, path);
        let some = leveled_path(c.env, c.level, front);
        let rest = leveled_part(c.env, c.level, part);
        assert(codes == some + rest);
        assert forall|k: int| 0 <= k < ports.len() implies at_port(
            c,
            #[trigger] ports[k],
            codes[k],
        ) by {
            if k < done.len() {
                assert(ports[k] == done[k]);
            } else {
                assert(ports[k] == last[k - done.len()]);
            }
        }
        ports
    }
}

proof fn part_reads(
    c: Reading,
    net: Net,
    output: Spot,
    part: ResolvedPathPart,
    operator: OperatorView,
    before: Seq<Spot>,
) -> (ports: Seq<Spot>)
    requires
        situated(c, net, net_steps::applied_to_part(net, output, part).0),
        applied(c.steps, output, operator, before),
    ensures
        applied(
            c.steps,
            net_steps::applied_to_part(net, output, part).1,
            operator,
            before + ports,
        ),
        ports.len() == leveled_part(c.env, c.level, part).len(),
        forall|k: int|
            0 <= k < ports.len() ==> at_port(
                c,
                #[trigger] ports[k],
                leveled_part(c.env, c.level, part)[k],
            ),
    decreases part, 3nat,
{
    let (opened, argument, _) = net_steps::bound(net, output);
    let to = net_steps::applied_to_part(net, output, part).0;
    bind_grows(net, output);
    match part {
        ResolvedPathPart::Key(_) => {
            assert(before + Seq::<Spot>::empty() =~= before);
            Seq::empty()
        },
        ResolvedPathPart::Index(code) => {
            compiled_grows(opened, code, argument);
            situated_between(c, net, opened, to);
            bind_reads(c, net, opened, output, operator, before);
            compiled_reads(c, opened, code, argument);
            assert(before.push(argument) =~= before + seq![argument]);
            seq![argument]
        },
        ResolvedPathPart::PathIndex(code) => {
            compiled_grows(opened, code, argument);
            situated_between(c, net, opened, to);
            bind_reads(c, net, opened, output, operator, before);
            compiled_reads(c, opened, code, argument);
            assert(before.push(argument) =~= before + seq![argument]);
            seq![argument]
        },
    }
}

/// The templates of a function read back as the function: whatever the locals
/// around it are, its captures, in ascending order, come first among its inputs
/// and its parameters after them, and its body is what was compiled.
pub proof fn nets_read_back_as_their_code(
    parameters: Seq<BindingId>,
    body: ResolvedExpr,
    env: Map<nat, Code>,
    level: nat,
)
    ensures
        ({
            let ids = values::ids(parameters);
            let ts = net_steps::with_template(Seq::empty(), ids, body);
            let t = (ts.len() - 1) as nat;
            let around = net_steps::captured(ids, body);
            &&& ts.len() > 0
            &&& around.to_set() == net_lowering::free(body).difference(ids.to_set())
            &&& function_reads(
                ts,
                t,
                around.map_values(|id: nat| env[id]),
                level,
                Code::Function(
                    parameters.len(),
                    Box::new(
                        leveled(numbered(env, ids, level), level + parameters.len(), body),
                    ),
                ),
            )
        }),
{
    let ids = values::ids(parameters);
    let ts = net_steps::with_template(Seq::empty(), ids, body);
    let captured = net_steps::captured(ids, body).map_values(|id: nat| env[id]);
    assert(ts.take(ts.len() as int) =~= ts);
    net_steps::captured_is_free(parameters, body);
    template_reads(ts, Seq::empty(), parameters, body, captured, level, env);
}

} // verus!
