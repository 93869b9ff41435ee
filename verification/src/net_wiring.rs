//! Nets are linear: every port of every node is connected once.

use vstd::prelude::*;
use crate::net_steps;
use crate::net_steps::{DataView, Net, OperatorView, Place, Spot, StepView, TemplateView};
use crate::values;
use crate::values::{BindingId, ResolvedExpr, ResolvedPathPart, Shape};

verus! {

/// The ports of a node.
pub open spec fn has_place(step: StepView, place: Place) -> bool {
    match step {
        StepView::Copy(n) => match place {
            Place::Input => true,
            Place::Output(k) => k < n,
            _ => false,
        },
        StepView::Bind => place is Application || place is Result || place == Place::Argument(0),
        StepView::BindSpine(n) => match place {
            Place::Input => true,
            Place::Argument(k) => k < n,
            Place::Result => true,
            _ => false,
        },
        StepView::Operator(_) => place is Result,
        StepView::Data(_) => place is Result,
        StepView::Wire(_, _) => false,
        StepView::Finish(_) => false,
    }
}

pub open spec fn has_port(steps: Seq<StepView>, port: Spot) -> bool {
    port.step < steps.len() && has_place(steps[port.step as int], port.place)
}

pub open spec fn once(b: bool) -> int {
    if b {
        1
    } else {
        0
    }
}

/// How many ends of wires are at a port. The net's own port is such an end.
pub open spec fn ends(steps: Seq<StepView>, port: Spot) -> int
    decreases steps.len(),
{
    if steps.len() == 0 {
        0
    } else {
        ends(steps.drop_last(), port) + match steps.last() {
            StepView::Wire(left, right) => once(left == port) + once(right == port),
            StepView::Finish(end) => once(end == port),
            _ => 0,
        }
    }
}

/// A net in which every port of every node is connected, and to one thing only.
pub open spec fn linear(steps: Seq<StepView>) -> bool {
    forall|port: Spot| #[trigger] ends(steps, port) == once(has_port(steps, port))
}

pub open spec fn all_linear(templates: Seq<TemplateView>) -> bool {
    forall|k: int| 0 <= k < templates.len() ==> linear(#[trigger] templates[k].steps)
}

/// How often a port is in a list.
spec fn listed(ports: Seq<Spot>, port: Spot) -> int
    decreases ports.len(),
{
    if ports.len() == 0 {
        0
    } else {
        listed(ports.drop_last(), port) + once(ports.last() == port)
    }
}

spec fn awaiting(waiting: Seq<(nat, Spot)>, port: Spot) -> int
    decreases waiting.len(),
{
    if waiting.len() == 0 {
        0
    } else {
        awaiting(waiting.drop_last(), port) + once(waiting.last().1 == port)
    }
}

/// What a net still owes a port: one for a port without a connection.
spec fn owed(net: Net, port: Spot) -> int {
    once(has_port(net.steps, port)) - ends(net.steps, port) - awaiting(net.waiting, port)
}

proof fn owed_after_step(net: Net, step: StepView, port: Spot)
    ensures
        owed(net_steps::then_step(net, step), port) == owed(net, port) + once(
            port.step == net.steps.len() && has_place(step, port.place),
        ) - match step {
            StepView::Wire(left, right) => once(left == port) + once(right == port),
            StepView::Finish(end) => once(end == port),
            _ => 0,
        },
{
    let to = net_steps::then_step(net, step);
    assert(to.steps.drop_last() =~= net.steps);
    assert(to.steps.last() == step);
}

proof fn owed_after_wait(net: Net, id: nat, target: Spot, port: Spot)
    ensures
        owed(net_steps::awaited(net, id, target), port) == owed(net, port) - once(target == port),
{
    let to = net_steps::awaited(net, id, target);
    assert(to.waiting.drop_last() =~= net.waiting);
}

proof fn owed_after_data(net: Net, data: DataView, target: Spot, port: Spot)
    ensures
        owed(net_steps::data_net(net, data, target), port) == owed(net, port) - once(
            target == port,
        ),
{
    let source = net_steps::spot(net, Place::Result);
    let b = net_steps::then_step(net, StepView::Data(data));
    owed_after_step(net, StepView::Data(data), port);
    owed_after_step(b, StepView::Wire(source, target), port);
}

proof fn owed_after_bind(net: Net, output: Spot, port: Spot)
    ensures
        ({
            let (to, argument, result) = net_steps::bound(net, output);
            owed(to, port) == owed(net, port) - once(output == port) + once(argument == port)
                + once(result == port)
        }),
{
    let b = net_steps::then_step(net, StepView::Bind);
    let here = net_steps::spot(net, Place::Application);
    owed_after_step(net, StepView::Bind, port);
    owed_after_step(b, StepView::Wire(output, here), port);
}

proof fn owed_after_locals(net: Net, output: Spot, ids: Seq<nat>, port: Spot)
    ensures
        ({
            let (to, out) = net_steps::applied_to_locals(net, output, ids);
            &&& to.templates == net.templates
            &&& owed(to, port) == owed(net, port) - once(output == port) + once(out == port)
        }),
    decreases ids.len(),
{
    if ids.len() > 0 {
        let (before, out) = net_steps::applied_to_locals(net, output, ids.drop_last());
        let (opened, argument, _) = net_steps::bound(before, out);
        owed_after_locals(net, output, ids.drop_last(), port);
        owed_after_bind(before, out, port);
        owed_after_wait(opened, ids.last(), argument, port);
    }
}

proof fn owed_after_operator(
    net: Net,
    operator: OperatorView,
    ids: Seq<nat>,
    target: Spot,
    port: Spot,
)
    ensures
        net_steps::locals_net(net, operator, ids, target).templates == net.templates,
        owed(net_steps::locals_net(net, operator, ids, target), port) == owed(net, port) - once(
            target == port,
        ),
{
    let start = net_steps::spot(net, Place::Result);
    let b = net_steps::then_step(net, StepView::Operator(operator));
    let (after, out) = net_steps::applied_to_locals(b, start, ids);
    owed_after_step(net, StepView::Operator(operator), port);
    owed_after_locals(b, start, ids, port);
    owed_after_step(after, StepView::Wire(out, target), port);
}

proof fn owed_after_fan(net: Net, copy: nat, targets: Seq<Spot>, port: Spot)
    ensures
        net_steps::fanned(net, copy, targets).templates == net.templates,
        owed(net_steps::fanned(net, copy, targets), port) == owed(net, port) - listed(targets, port)
            - once(
            port.step == copy && port.place is Output && port.place->Output_0 < targets.len(),
        ),
    decreases targets.len(),
{
    if targets.len() > 0 {
        let front = targets.drop_last();
        owed_after_fan(net, copy, front, port);
        let source = Spot { step: copy, place: Place::Output((targets.len() - 1) as nat) };
        owed_after_step(
            net_steps::fanned(net, copy, front),
            StepView::Wire(source, targets.last()),
            port,
        );
    }
}

proof fn owed_after_sharing(net: Net, source: Spot, targets: Seq<Spot>, port: Spot)
    ensures
        net_steps::distributed(net, source, targets).templates == net.templates,
        owed(net_steps::distributed(net, source, targets), port) == owed(net, port) - listed(
            targets,
            port,
        ) - once(source == port),
{
    let copy = net.steps.len();
    let entry = Spot { step: copy, place: Place::Input };
    let b = net_steps::then_step(net, StepView::Copy(targets.len()));
    owed_after_step(net, StepView::Copy(targets.len()), port);
    owed_after_step(b, StepView::Wire(source, entry), port);
    owed_after_fan(net_steps::wired(b, source, entry), copy, targets, port);
}

proof fn waiting_is_split(waiting: Seq<(nat, Spot)>, id: nat, port: Spot)
    ensures
        awaiting(waiting, port) == listed(net_steps::ports_of(waiting, id), port) + awaiting(
            net_steps::without(waiting, id),
            port,
        ),
    decreases waiting.len(),
{
    if waiting.len() > 0 {
        let front = waiting.drop_last();
        waiting_is_split(front, id, port);
        let found = net_steps::ports_of(front, id);
        let rest = net_steps::without(front, id);
        assert(found.push(waiting.last().1).drop_last() =~= found);
        assert(rest.push(waiting.last()).drop_last() =~= rest);
    }
}

proof fn owed_after_all_sharing(net: Net, spine: nat, inputs: Seq<nat>, port: Spot)
    ensures
        net_steps::shared_out(net, spine, inputs).templates == net.templates,
        owed(net_steps::shared_out(net, spine, inputs), port) == owed(net, port) - once(
            port.step == spine && port.place is Argument && port.place->Argument_0 < inputs.len(),
        ),
    decreases inputs.len(),
{
    if inputs.len() > 0 {
        let front = inputs.drop_last();
        let id = inputs.last();
        owed_after_all_sharing(net, spine, front, port);
        let before = net_steps::shared_out(net, spine, front);
        waiting_is_split(before.waiting, id, port);
        let own = Net { waiting: net_steps::without(before.waiting, id), ..before };
        let source = Spot { step: spine, place: Place::Argument((inputs.len() - 1) as nat) };
        owed_after_sharing(own, source, net_steps::ports_of(before.waiting, id), port);
    }
}

proof fn owed_after_closing(net: Net, inputs: Seq<nat>, port: Spot)
    ensures
        net_steps::closed_over(net, inputs).templates == net.templates,
        owed(net_steps::closed_over(net, inputs), port) == owed(net, port) - once(
            port == (Spot { step: 0, place: Place::Input }),
        ),
{
    let boundary = Spot { step: 0, place: Place::Input };
    if inputs.len() == 0 {
        owed_after_step(net, StepView::Finish(boundary), port);
    } else {
        let spine = net.steps.len();
        let result = Spot { step: spine, place: Place::Result };
        let b = net_steps::then_step(net, StepView::BindSpine(inputs.len()));
        let opened = net_steps::wired(b, result, boundary);
        let after = net_steps::shared_out(opened, spine, inputs);
        owed_after_step(net, StepView::BindSpine(inputs.len()), port);
        owed_after_step(b, StepView::Wire(result, boundary), port);
        owed_after_all_sharing(opened, spine, inputs, port);
        owed_after_step(
            after,
            StepView::Finish(Spot { step: spine, place: Place::Input }),
            port,
        );
    }
}

proof fn template_is_linear(
    templates: Seq<TemplateView>,
    parameters: Seq<BindingId>,
    body: ResolvedExpr,
)
    requires
        all_linear(templates),
    ensures
        all_linear(net_steps::with_template(templates, values::ids(parameters), body)),
    decreases body, 1nat,
{
    let ids = values::ids(parameters);
    let inputs = net_steps::captured(ids, body) + ids;
    let empty = Net { templates, steps: Seq::empty(), waiting: Seq::empty() };
    let begun = net_steps::then_step(empty, StepView::Copy(1));
    let target = Spot { step: 0, place: Place::Output(0) };
    let net = net_steps::compiled(begun, body, target);
    let done = net_steps::closed_over(net, inputs);
    net_steps::templates_wire_every_local(templates, parameters, body);
    assert(done == net_steps::finished(templates, inputs, body));
    assert(all_linear(net.templates)) by {
        compiled_is_linear(begun, body, target, target);
    }
    assert forall|port: Spot| #[trigger] ends(done.steps, port) == once(
        has_port(done.steps, port),
    ) by {
        assert(owed(empty, port) == 0);
        owed_after_step(empty, StepView::Copy(1), port);
        compiled_is_linear(begun, body, target, port);
        owed_after_closing(net, inputs, port);
        assert(awaiting(done.waiting, port) == 0);
    }
    owed_after_closing(net, inputs, target);
    let all = net_steps::with_template(templates, ids, body);
    assert forall|k: int| 0 <= k < all.len() implies linear(#[trigger] all[k].steps) by {
        if k < net.templates.len() {
            assert(all[k] == net.templates[k]);
        } else {
            assert(all[k].steps == done.steps);
        }
    }
}

/// What compiling to a port adds is linear, and connects the port.
proof fn compiled_is_linear(net: Net, code: ResolvedExpr, target: Spot, port: Spot)
    requires
        all_linear(net.templates),
    ensures
        all_linear(net_steps::compiled(net, code, target).templates),
        owed(net_steps::compiled(net, code, target), port) == owed(net, port) - once(
            target == port,
        ),
    decreases code, 0nat,
{
    match code {
        ResolvedExpr::Embedded(value) => {
            owed_after_data(net, DataView::Value(values::value_form(value)), target, port);
        },
        ResolvedExpr::Provided(value) => {
            owed_after_data(net, DataView::Value(values::value_form(value)), target, port);
        },
        ResolvedExpr::Local(id) => {
            owed_after_wait(net, id.0 as nat, target, port);
        },
        ResolvedExpr::List(items) => {
            if items@.len() == 0 {
                let form = values::shaped(Shape::List, Seq::empty());
                owed_after_data(net, DataView::Value(form), target, port);
            } else {
                let operator = OperatorView::List(items@.len());
                let start = net_steps::spot(net, Place::Result);
                let b = net_steps::then_step(net, StepView::Operator(operator));
                let (after, out) = net_steps::applied_lazily(b, start, items@);
                owed_after_step(net, StepView::Operator(operator), port);
                lazily_is_linear(b, start, items@, port);
                owed_after_step(after, StepView::Wire(out, target), port);
            }
        },
        ResolvedExpr::Access { base, path } => {
            let operator = OperatorView::Access(net_steps::path_keys(path@));
            let start = net_steps::spot(net, Place::Result);
            let b = net_steps::then_step(net, StepView::Operator(operator));
            let (opened, argument, result) = net_steps::bound(b, start);
            let d = net_steps::compiled(opened, *base, argument);
            let (after, out) = net_steps::applied_to_path(d, result, path@);
            owed_after_step(net, StepView::Operator(operator), port);
            owed_after_bind(b, start, port);
            compiled_is_linear(opened, *base, argument, port);
            path_is_linear(d, result, path@, port);
            owed_after_step(after, StepView::Wire(out, target), port);
        },
        ResolvedExpr::Lambda(parameters, body) => {
            let ids = values::ids(parameters@);
            let captures = net_steps::captured(ids, *body);
            let templates = net_steps::with_template(net.templates, ids, *body);
            let own = Net { templates, ..net };
            let t = (templates.len() - 1) as nat;
            template_is_linear(net.templates, parameters@, *body);
            if captures.len() == 0 {
                owed_after_data(own, DataView::Function(t), target, port);
            } else {
                owed_after_operator(own, OperatorView::CaptureFunction(t), captures, target, port);
            }
        },
        ResolvedExpr::Apply(function, arguments) => {
            let operator = OperatorView::ApplyArity(arguments@.len());
            let start = net_steps::spot(net, Place::Result);
            let b = net_steps::then_step(net, StepView::Operator(operator));
            let (opened, argument, result) = net_steps::bound(b, start);
            let d = net_steps::compiled(opened, *function, argument);
            let (after, out) = net_steps::applied_lazily(d, result, arguments@);
            owed_after_step(net, StepView::Operator(operator), port);
            owed_after_bind(b, start, port);
            compiled_is_linear(opened, *function, argument, port);
            lazily_is_linear(d, result, arguments@, port);
            owed_after_step(after, StepView::Wire(out, target), port);
        },
    }
}

proof fn lazy_is_linear(net: Net, code: ResolvedExpr, target: Spot, port: Spot)
    requires
        all_linear(net.templates),
    ensures
        all_linear(net_steps::compiled_lazily(net, code, target).templates),
        owed(net_steps::compiled_lazily(net, code, target), port) == owed(net, port) - once(
            target == port,
        ),
    decreases code, 2nat,
{
    if let ResolvedExpr::Embedded(value) = code {
        owed_after_data(net, DataView::Value(values::value_form(value)), target, port);
    } else if let ResolvedExpr::Provided(value) = code {
        owed_after_data(net, DataView::Value(values::value_form(value)), target, port);
    } else {
        let nothing = Seq::<BindingId>::empty();
        assert(values::ids(nothing) =~= Seq::empty());
        let captures = net_steps::captured(Seq::empty(), code);
        let templates = net_steps::with_template(net.templates, Seq::empty(), code);
        let own = Net { templates, ..net };
        let t = (templates.len() - 1) as nat;
        template_is_linear(net.templates, nothing, code);
        if captures.len() == 0 {
            owed_after_data(own, DataView::Computation(t), target, port);
        } else {
            owed_after_operator(own, OperatorView::CaptureComputation(t), captures, target, port);
        }
    }
}

proof fn lazily_is_linear(net: Net, output: Spot, items: Seq<ResolvedExpr>, port: Spot)
    requires
        all_linear(net.templates),
    ensures
        ({
            let (to, out) = net_steps::applied_lazily(net, output, items);
            &&& all_linear(to.templates)
            &&& owed(to, port) == owed(net, port) - once(output == port) + once(out == port)
        }),
    decreases items, 3nat,
{
    if items.len() > 0 {
        let (before, out) = net_steps::applied_lazily(net, output, items.drop_last());
        let (opened, argument, _) = net_steps::bound(before, out);
        lazily_is_linear(net, output, items.drop_last(), port);
        owed_after_bind(before, out, port);
        lazy_is_linear(opened, items.last(), argument, port);
    }
}

proof fn path_is_linear(net: Net, output: Spot, path: Seq<ResolvedPathPart>, port: Spot)
    requires
        all_linear(net.templates),
    ensures
        ({
            let (to, out) = net_steps::applied_to_path(net, output, path);
            &&& all_linear(to.templates)
            &&& owed(to, port) == owed(net, port) - once(output == port) + once(out == port)
        }),
    decreases path, 3nat,
{
    if path.len() > 0 {
        let (before, out) = net_steps::applied_to_path(net, output, path.drop_last());
        path_is_linear(net, output, path.drop_last(), port);
        part_is_linear(before, out, path.last(), port);
    }
}

proof fn part_is_linear(net: Net, output: Spot, part: ResolvedPathPart, port: Spot)
    requires
        all_linear(net.templates),
    ensures
        ({
            let (to, out) = net_steps::applied_to_part(net, output, part);
            &&& all_linear(to.templates)
            &&& owed(to, port) == owed(net, port) - once(output == port) + once(out == port)
        }),
    decreases part, 3nat,
{
    let (opened, argument, _) = net_steps::bound(net, output);
    owed_after_bind(net, output, port);
    match part {
        ResolvedPathPart::Key(_) => {},
        ResolvedPathPart::Index(code) => {
            compiled_is_linear(opened, code, argument, port);
        },
        ResolvedPathPart::PathIndex(code) => {
            compiled_is_linear(opened, code, argument, port);
        },
    }
}

/// In the templates of a function, those of the functions and computations in
/// it too, every port of every node is connected, and to one thing only: what
/// is copied goes to as many ports as the copy has outputs, and an input that
/// nothing uses is copied to none.
pub proof fn every_port_is_connected_once(parameters: Seq<BindingId>, body: ResolvedExpr)
    ensures
        all_linear(net_steps::with_template(Seq::empty(), values::ids(parameters), body)),
{
    template_is_linear(Seq::empty(), parameters, body);
}

} // verus!
