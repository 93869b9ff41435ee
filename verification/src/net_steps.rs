//! Code as the steps that build its interaction nets.
//!
//! A net is built by steps that create nodes and wire their ports. A port is
//! named by the step that created its node and by its place on the node. Code
//! within code becomes a template of its own, which comes before those that
//! refer to it by its number.

use vstd::prelude::*;
use crate::net_lowering;
use crate::net_lowering::lower_code;
use crate::values;
use crate::values::{BindingId, Form, Key, ResolvedExpr, ResolvedPathPart, Shape, Value};

verus! {

/// The place of a port on its node.
#[derive(Debug, Clone, Copy, PartialEq, Eq, Structural)]
pub enum PortPlace {
    Input,
    Output(usize),
    Application,
    Argument(usize),
    Result,
}

/// A port, by the step that created its node.
#[derive(Debug, Clone, Copy, PartialEq, Eq, Structural)]
pub struct Port {
    pub step: usize,
    pub place: PortPlace,
}

/// A component of the path of an access. Those that are computed are arguments
/// of the operator.
#[derive(Debug, PartialEq, Eq)]
pub enum DataKey {
    Key(Key),
    Index,
    PathIndex,
}

/// Operators of nets. Those that capture take what a template captures.
#[derive(Debug, PartialEq, Eq)]
pub enum NetOperator {
    List(usize),
    Access(Vec<DataKey>),
    ApplyArity(usize),
    CaptureFunction(usize),
    CaptureComputation(usize),
}

/// Data of nets. Functions and computations are templates that capture
/// nothing.
#[derive(Debug, PartialEq, Eq)]
pub enum NetData {
    Value(Value),
    Function(usize),
    Computation(usize),
}

/// A step that builds a net.
#[derive(Debug, PartialEq, Eq)]
pub enum NetStep {
    /// A node that copies its input to a number of outputs.
    Copy(usize),
    /// A node that applies a function to an argument.
    Bind,
    /// A node that takes a number of arguments.
    BindSpine(usize),
    Operator(NetOperator),
    Data(NetData),
    Wire(Port, Port),
    /// The net is complete, and this is its port.
    Finish(Port),
}

/// The steps that build the net of a function.
#[derive(Debug, PartialEq, Eq)]
pub struct NetTemplate {
    pub captures: Vec<BindingId>,
    pub arity: usize,
    pub steps: Vec<NetStep>,
}

pub enum Place {
    Input,
    Output(nat),
    Application,
    Argument(nat),
    Result,
}

pub struct Spot {
    pub step: nat,
    pub place: Place,
}

pub enum OperatorView {
    List(nat),
    Access(Seq<DataKey>),
    ApplyArity(nat),
    CaptureFunction(nat),
    CaptureComputation(nat),
}

pub enum DataView {
    Value(Form),
    Function(nat),
    Computation(nat),
}

pub enum StepView {
    Copy(nat),
    Bind,
    BindSpine(nat),
    Operator(OperatorView),
    Data(DataView),
    Wire(Spot, Spot),
    Finish(Spot),
}

pub struct TemplateView {
    pub captures: Seq<nat>,
    pub arity: nat,
    pub steps: Seq<StepView>,
}

impl View for Port {
    type V = Spot;

    open spec fn view(&self) -> Spot {
        Spot {
            step: self.step as nat,
            place: match self.place {
                PortPlace::Input => Place::Input,
                PortPlace::Output(k) => Place::Output(k as nat),
                PortPlace::Application => Place::Application,
                PortPlace::Argument(k) => Place::Argument(k as nat),
                PortPlace::Result => Place::Result,
            },
        }
    }
}

impl View for NetOperator {
    type V = OperatorView;

    open spec fn view(&self) -> OperatorView {
        match *self {
            NetOperator::List(arity) => OperatorView::List(arity as nat),
            NetOperator::Access(keys) => OperatorView::Access(keys@),
            NetOperator::ApplyArity(arity) => OperatorView::ApplyArity(arity as nat),
            NetOperator::CaptureFunction(t) => OperatorView::CaptureFunction(t as nat),
            NetOperator::CaptureComputation(t) => OperatorView::CaptureComputation(t as nat),
        }
    }
}

impl View for NetData {
    type V = DataView;

    open spec fn view(&self) -> DataView {
        match *self {
            NetData::Value(value) => DataView::Value(values::value_form(value)),
            NetData::Function(t) => DataView::Function(t as nat),
            NetData::Computation(t) => DataView::Computation(t as nat),
        }
    }
}

impl View for NetStep {
    type V = StepView;

    open spec fn view(&self) -> StepView {
        match *self {
            NetStep::Copy(outputs) => StepView::Copy(outputs as nat),
            NetStep::Bind => StepView::Bind,
            NetStep::BindSpine(arguments) => StepView::BindSpine(arguments as nat),
            NetStep::Operator(operator) => StepView::Operator(operator@),
            NetStep::Data(data) => StepView::Data(data@),
            NetStep::Wire(left, right) => StepView::Wire(left@, right@),
            NetStep::Finish(port) => StepView::Finish(port@),
        }
    }
}

pub open spec fn step_views(steps: Seq<NetStep>) -> Seq<StepView> {
    steps.map_values(|step: NetStep| step@)
}

impl View for NetTemplate {
    type V = TemplateView;

    open spec fn view(&self) -> TemplateView {
        TemplateView {
            captures: values::ids(self.captures@),
            arity: self.arity as nat,
            steps: step_views(self.steps@),
        }
    }
}

pub open spec fn template_views(templates: Seq<NetTemplate>) -> Seq<TemplateView> {
    templates.map_values(|template: NetTemplate| template@)
}

/// A net that is being built: the templates so far, its own steps, and the
/// ports that wait for a local, in the order in which they were met.
pub struct Net {
    pub templates: Seq<TemplateView>,
    pub steps: Seq<StepView>,
    pub waiting: Seq<(nat, Spot)>,
}

pub open spec fn spot(net: Net, place: Place) -> Spot {
    Spot { step: net.steps.len(), place }
}

pub open spec fn then_step(net: Net, step: StepView) -> Net {
    Net { steps: net.steps.push(step), ..net }
}

pub open spec fn wired(net: Net, left: Spot, right: Spot) -> Net {
    then_step(net, StepView::Wire(left, right))
}

/// The net after data at a port.
pub open spec fn data_net(net: Net, data: DataView, target: Spot) -> Net {
    wired(then_step(net, StepView::Data(data)), spot(net, Place::Result), target)
}

/// The net after the node that applies what comes from a port, the port of the
/// argument, and that of the result.
pub open spec fn bound(net: Net, output: Spot) -> (Net, Spot, Spot) {
    (
        wired(then_step(net, StepView::Bind), output, spot(net, Place::Application)),
        spot(net, Place::Argument(0)),
        spot(net, Place::Result),
    )
}

pub open spec fn awaited(net: Net, id: nat, target: Spot) -> Net {
    Net { waiting: net.waiting.push((id, target)), ..net }
}

/// The net after the application of what comes from a port to locals.
pub open spec fn applied_to_locals(net: Net, output: Spot, ids: Seq<nat>) -> (Net, Spot)
    decreases ids.len(),
{
    if ids.len() == 0 {
        (net, output)
    } else {
        let (before, out) = applied_to_locals(net, output, ids.drop_last());
        let (opened, argument, result) = bound(before, out);
        (awaited(opened, ids.last(), argument), result)
    }
}

/// The net after an operator on locals at a port.
pub open spec fn locals_net(
    net: Net,
    operator: OperatorView,
    ids: Seq<nat>,
    target: Spot,
) -> Net {
    let (after, out) = applied_to_locals(
        then_step(net, StepView::Operator(operator)),
        spot(net, Place::Result),
        ids,
    );
    wired(after, out, target)
}

/// Ascending numbers.
pub open spec fn rises(ids: Seq<nat>) -> bool {
    forall|i: int, j: int| 0 <= i < j < ids.len() ==> #[trigger] ids[i] < #[trigger] ids[j]
}

/// The numbers of a set in ascending order.
pub open spec fn in_order(set: Set<nat>) -> Seq<nat> {
    choose|ids: Seq<nat>| rises(ids) && #[trigger] ids.to_set() == set
}

/// The locals that a function captures, in ascending order.
pub open spec fn captured(parameters: Seq<nat>, body: ResolvedExpr) -> Seq<nat> {
    in_order(net_lowering::free(body).difference(parameters.to_set()))
}

/// The components of a path.
pub open spec fn path_keys(path: Seq<ResolvedPathPart>) -> Seq<DataKey> {
    path.map_values(
        |part: ResolvedPathPart|
            match part {
                ResolvedPathPart::Key(key) => DataKey::Key(key),
                ResolvedPathPart::Index(_) => DataKey::Index,
                ResolvedPathPart::PathIndex(_) => DataKey::PathIndex,
            },
    )
}

/// Every function of some code binds an argument.
pub open spec fn binds(code: ResolvedExpr) -> bool
    decreases code,
{
    match code {
        ResolvedExpr::Embedded(_) => true,
        ResolvedExpr::Provided(_) => true,
        ResolvedExpr::Local(_) => true,
        ResolvedExpr::List(items) => binds_all(items@),
        ResolvedExpr::Access { base, path } => binds(*base) && binds_path(path@),
        ResolvedExpr::Lambda(parameters, body) => parameters@.len() > 0 && binds(*body),
        ResolvedExpr::Apply(function, arguments) => binds(*function) && binds_all(arguments@),
    }
}

pub open spec fn binds_all(items: Seq<ResolvedExpr>) -> bool
    decreases items,
{
    forall|i: int| 0 <= i < items.len() ==> binds(#[trigger] items[i])
}

pub open spec fn binds_path(path: Seq<ResolvedPathPart>) -> bool
    decreases path,
{
    forall|i: int| 0 <= i < path.len() ==> binds_part(#[trigger] path[i])
}

pub open spec fn binds_part(part: ResolvedPathPart) -> bool
    decreases part,
{
    match part {
        ResolvedPathPart::Key(_) => true,
        ResolvedPathPart::Index(code) => binds(code),
        ResolvedPathPart::PathIndex(code) => binds(code),
    }
}

/// Whether every function of some code binds an argument.
pub fn binds_arguments(code: &ResolvedExpr) -> (b: bool)
    ensures
        b == binds(*code),
    decreases code, 0nat,
{
    match code {
        ResolvedExpr::Embedded(_) | ResolvedExpr::Provided(_) | ResolvedExpr::Local(_) => true,
        ResolvedExpr::List(items) => all_bind(items),
        ResolvedExpr::Access { base, path } => binds_arguments(base) && path_binds(path),
        ResolvedExpr::Lambda(parameters, body) => parameters.len() > 0 && binds_arguments(body),
        ResolvedExpr::Apply(function, arguments) => binds_arguments(function) && all_bind(
            arguments,
        ),
    }
}

fn all_bind(items: &Vec<ResolvedExpr>) -> (b: bool)
    ensures
        b == binds_all(items@),
    decreases items, 0nat,
{
    let mut k: usize = 0;
    while k < items.len()
        invariant
            k <= items.len(),
            forall|i: int| 0 <= i < k ==> binds(#[trigger] items@[i]),
        decreases items.len() - k,
    {
        if !binds_arguments(&items[k]) {
            assert(!binds(items@[k as int]));
            return false;
        }
        k = k + 1;
    }
    true
}

fn path_binds(path: &Vec<ResolvedPathPart>) -> (b: bool)
    ensures
        b == binds_path(path@),
    decreases path, 0nat,
{
    let mut k: usize = 0;
    while k < path.len()
        invariant
            k <= path.len(),
            forall|i: int| 0 <= i < k ==> binds_part(#[trigger] path@[i]),
        decreases path.len() - k,
    {
        let bound = match &path[k] {
            ResolvedPathPart::Key(_) => true,
            ResolvedPathPart::Index(code) => binds_arguments(code),
            ResolvedPathPart::PathIndex(code) => binds_arguments(code),
        };
        if !bound {
            assert(!binds_part(path@[k as int]));
            return false;
        }
        k = k + 1;
    }
    true
}

/// The net after code whose value goes to a port.
pub open spec fn compiled(net: Net, code: ResolvedExpr, target: Spot) -> Net
    decreases code, 0nat,
{
    match code {
        ResolvedExpr::Embedded(value) => data_net(
            net,
            DataView::Value(values::value_form(value)),
            target,
        ),
        ResolvedExpr::Provided(value) => data_net(
            net,
            DataView::Value(values::value_form(value)),
            target,
        ),
        ResolvedExpr::Local(id) => awaited(net, id.0 as nat, target),
        ResolvedExpr::List(items) => if items@.len() == 0 {
            data_net(net, DataView::Value(values::shaped(Shape::List, Seq::empty())), target)
        } else {
            let (after, out) = applied_lazily(
                then_step(net, StepView::Operator(OperatorView::List(items@.len()))),
                spot(net, Place::Result),
                items@,
            );
            wired(after, out, target)
        },
        ResolvedExpr::Access { base, path } => {
            let output = spot(net, Place::Result);
            let begun = then_step(net, StepView::Operator(OperatorView::Access(path_keys(path@))));
            let (opened, argument, result) = bound(begun, output);
            let (after, out) = applied_to_path(compiled(opened, *base, argument), result, path@);
            wired(after, out, target)
        },
        ResolvedExpr::Lambda(parameters, body) => {
            let ids = values::ids(parameters@);
            let captures = captured(ids, *body);
            let templates = with_template(net.templates, ids, *body);
            let own = Net { templates, ..net };
            let t = (templates.len() - 1) as nat;
            if captures.len() == 0 {
                data_net(own, DataView::Function(t), target)
            } else {
                locals_net(own, OperatorView::CaptureFunction(t), captures, target)
            }
        },
        ResolvedExpr::Apply(function, arguments) => {
            let output = spot(net, Place::Result);
            let begun = then_step(
                net,
                StepView::Operator(OperatorView::ApplyArity(arguments@.len())),
            );
            let (opened, argument, result) = bound(begun, output);
            let (after, out) = applied_lazily(
                compiled(opened, *function, argument),
                result,
                arguments@,
            );
            wired(after, out, target)
        },
    }
}

/// The net after code whose computation goes to a port.
pub open spec fn compiled_lazily(net: Net, code: ResolvedExpr, target: Spot) -> Net
    decreases code, 3nat,
{
    match code {
        ResolvedExpr::Embedded(value) => data_net(
            net,
            DataView::Value(values::value_form(value)),
            target,
        ),
        ResolvedExpr::Provided(value) => data_net(
            net,
            DataView::Value(values::value_form(value)),
            target,
        ),
        _ => {
            let captures = captured(Seq::empty(), code);
            let templates = with_template(net.templates, Seq::empty(), code);
            let own = Net { templates, ..net };
            let t = (templates.len() - 1) as nat;
            if captures.len() == 0 {
                data_net(own, DataView::Computation(t), target)
            } else {
                locals_net(own, OperatorView::CaptureComputation(t), captures, target)
            }
        },
    }
}

/// The net after the application of what comes from a port to computations.
pub open spec fn applied_lazily(net: Net, output: Spot, items: Seq<ResolvedExpr>) -> (Net, Spot)
    decreases items, 4nat,
{
    if items.len() == 0 {
        (net, output)
    } else {
        let (before, out) = applied_lazily(net, output, items.drop_last());
        let (opened, argument, result) = bound(before, out);
        (compiled_lazily(opened, items.last(), argument), result)
    }
}

/// The net after the application of what comes from a port to the computed
/// components of a path.
pub open spec fn applied_to_path(net: Net, output: Spot, path: Seq<ResolvedPathPart>) -> (Net, Spot)
    decreases path, 4nat,
{
    if path.len() == 0 {
        (net, output)
    } else {
        let (before, out) = applied_to_path(net, output, path.drop_last());
        applied_to_part(before, out, path.last())
    }
}

pub open spec fn applied_to_part(net: Net, output: Spot, part: ResolvedPathPart) -> (Net, Spot)
    decreases part, 4nat,
{
    let (opened, argument, result) = bound(net, output);
    match part {
        ResolvedPathPart::Key(_) => (net, output),
        ResolvedPathPart::Index(code) => (compiled(opened, code, argument), result),
        ResolvedPathPart::PathIndex(code) => (compiled(opened, code, argument), result),
    }
}

/// The templates after that of a function, which comes last.
pub open spec fn with_template(
    templates: Seq<TemplateView>,
    parameters: Seq<nat>,
    body: ResolvedExpr,
) -> Seq<TemplateView>
    decreases body, 2nat,
{
    let captures = captured(parameters, body);
    let net = finished(templates, captures + parameters, body);
    net.templates.push(TemplateView { captures, arity: parameters.len(), steps: net.steps })
}

/// The net of a body over its inputs.
pub open spec fn finished(
    templates: Seq<TemplateView>,
    inputs: Seq<nat>,
    body: ResolvedExpr,
) -> Net
    decreases body, 1nat,
{
    let empty = Net { templates, steps: Seq::empty(), waiting: Seq::empty() };
    let begun = then_step(empty, StepView::Copy(1));
    let net = compiled(begun, body, Spot { step: 0, place: Place::Output(0) });
    closed_over(net, inputs)
}

/// The net when its locals come from inputs.
pub open spec fn closed_over(net: Net, inputs: Seq<nat>) -> Net {
    let boundary = Spot { step: 0, place: Place::Input };
    if inputs.len() == 0 {
        then_step(net, StepView::Finish(boundary))
    } else {
        let spine = net.steps.len();
        let opened = wired(
            then_step(net, StepView::BindSpine(inputs.len())),
            Spot { step: spine, place: Place::Result },
            boundary,
        );
        let after = shared_out(opened, spine, inputs);
        then_step(after, StepView::Finish(Spot { step: spine, place: Place::Input }))
    }
}

/// The ports that wait for a local.
pub open spec fn ports_of(waiting: Seq<(nat, Spot)>, id: nat) -> Seq<Spot>
    decreases waiting.len(),
{
    if waiting.len() == 0 {
        Seq::empty()
    } else {
        let before = ports_of(waiting.drop_last(), id);
        if waiting.last().0 == id {
            before.push(waiting.last().1)
        } else {
            before
        }
    }
}

/// The ports that wait for other locals.
pub open spec fn without(waiting: Seq<(nat, Spot)>, id: nat) -> Seq<(nat, Spot)>
    decreases waiting.len(),
{
    if waiting.len() == 0 {
        Seq::empty()
    } else {
        let before = without(waiting.drop_last(), id);
        if waiting.last().0 == id {
            before
        } else {
            before.push(waiting.last())
        }
    }
}

/// The wires from a node that copies to ports.
pub open spec fn fanned(net: Net, copy: nat, targets: Seq<Spot>) -> Net
    decreases targets.len(),
{
    if targets.len() == 0 {
        net
    } else {
        wired(
            fanned(net, copy, targets.drop_last()),
            Spot { step: copy, place: Place::Output((targets.len() - 1) as nat) },
            targets.last(),
        )
    }
}

/// The net after a source is copied to all its targets.
pub open spec fn distributed(net: Net, source: Spot, targets: Seq<Spot>) -> Net {
    let copy = net.steps.len();
    fanned(
        wired(
            then_step(net, StepView::Copy(targets.len())),
            source,
            Spot { step: copy, place: Place::Input },
        ),
        copy,
        targets,
    )
}

/// The net after its inputs are copied to the ports that wait for them, from
/// the first input on.
pub open spec fn shared_out(net: Net, spine: nat, inputs: Seq<nat>) -> Net
    decreases inputs.len(),
{
    if inputs.len() == 0 {
        net
    } else {
        let before = shared_out(net, spine, inputs.drop_last());
        let id = inputs.last();
        distributed(
            Net { waiting: without(before.waiting, id), ..before },
            Spot { step: spine, place: Place::Argument((inputs.len() - 1) as nat) },
            ports_of(before.waiting, id),
        )
    }
}

/// Ascending lists of the same numbers are the same.
proof fn order_is_unique(a: Seq<nat>, b: Seq<nat>)
    requires
        rises(a),
        rises(b),
        a.to_set() == b.to_set(),
    ensures
        a == b,
    decreases a.len(),
{
    if a.len() == 0 {
        if b.len() > 0 {
            assert(b.to_set().contains(b[0]));
            assert(a.to_set().contains(b[0]));
        }
        assert(a =~= b);
    } else {
        assert(a.to_set().contains(a.last())) by {
            assert(a[a.len() - 1] == a.last());
        }
        assert(b.to_set().contains(a.last()));
        assert(b.len() > 0);
        assert(b.to_set().contains(b.last())) by {
            assert(b[b.len() - 1] == b.last());
        }
        assert(a.to_set().contains(b.last()));
        let i = choose|i: int| 0 <= i < a.len() && a[i] == b.last();
        let j = choose|j: int| 0 <= j < b.len() && b[j] == a.last();
        assert(a.last() == b.last()) by {
            if i < a.len() - 1 {
                assert(a[i] < a[a.len() - 1]);
            }
            if j < b.len() - 1 {
                assert(b[j] < b[b.len() - 1]);
            }
        }
        let x = a.drop_last();
        let y = b.drop_last();
        assert forall|n: nat| #[trigger] x.to_set().contains(n) == y.to_set().contains(n) by {
            if x.to_set().contains(n) {
                let k = choose|k: int| 0 <= k < x.len() && x[k] == n;
                assert(a[k] < a[a.len() - 1]);
                assert(a.to_set().contains(n));
                assert(b.to_set().contains(n));
                let m = choose|m: int| 0 <= m < b.len() && b[m] == n;
                assert(y[m] == n);
            }
            if y.to_set().contains(n) {
                let k = choose|k: int| 0 <= k < y.len() && y[k] == n;
                assert(b[k] < b[b.len() - 1]);
                assert(b.to_set().contains(n));
                assert(a.to_set().contains(n));
                let m = choose|m: int| 0 <= m < a.len() && a[m] == n;
                assert(x[m] == n);
            }
        }
        assert(x.to_set() =~= y.to_set());
        order_is_unique(x, y);
        assert(a =~= x.push(a.last()));
        assert(b =~= y.push(b.last()));
    }
}

pub proof fn ids_as_set(locals: Seq<BindingId>)
    ensures
        values::ids(locals).to_set() == net_lowering::ids_in(locals),
{
    let ids = values::ids(locals);
    assert forall|n: nat| #[trigger] ids.to_set().contains(n) == net_lowering::ids_in(
        locals,
    ).contains(n) by {
        if ids.to_set().contains(n) {
            let k = choose|k: int| 0 <= k < ids.len() && ids[k] == n;
            assert(locals[k].0 == n);
        }
        if net_lowering::ids_in(locals).contains(n) {
            let k = choose|k: int| 0 <= k < locals.len() && (#[trigger] locals[k]).0 == n;
            assert(ids[k] == n);
        }
    }
    assert(ids.to_set() =~= net_lowering::ids_in(locals));
}

/// The captures of a function are those that its code takes.
proof fn captures_are(captures: Seq<BindingId>, parameters: Seq<BindingId>, body: ResolvedExpr)
    requires
        net_lowering::ascending(captures),
        net_lowering::ids_in(captures) == net_lowering::free(body).difference(
            net_lowering::ids_in(parameters),
        ),
    ensures
        values::ids(captures) == captured(values::ids(parameters), body),
{
    let ids = values::ids(captures);
    let set = net_lowering::free(body).difference(values::ids(parameters).to_set());
    ids_as_set(captures);
    ids_as_set(parameters);
    assert(rises(ids)) by {
        assert forall|i: int, j: int| 0 <= i < j < ids.len() implies #[trigger] ids[i]
            < #[trigger] ids[j] by {
            assert(captures[i].0 < captures[j].0);
        }
    }
    assert(rises(ids) && ids.to_set() == set);
    order_is_unique(ids, in_order(set));
}

/// A net that is being built, without the templates.
pub struct NetBuilder {
    pub steps: Vec<NetStep>,
    pub waiting: Vec<(BindingId, Port)>,
}

pub open spec fn waiting_views(waiting: Seq<(BindingId, Port)>) -> Seq<(nat, Spot)> {
    waiting.map_values(|wait: (BindingId, Port)| (wait.0.0 as nat, wait.1@))
}

pub open spec fn net_of(builder: NetBuilder, templates: Seq<NetTemplate>) -> Net {
    Net {
        templates: template_views(templates),
        steps: step_views(builder.steps@),
        waiting: waiting_views(builder.waiting@),
    }
}

impl NetBuilder {
    fn port(&self, place: PortPlace) -> (port: Port)
        ensures
            port.step == self.steps@.len(),
            port.place == place,
    {
        Port { step: self.steps.len(), place }
    }

    fn add(&mut self, step: NetStep)
        ensures
            final(self).waiting == old(self).waiting,
            step_views(final(self).steps@) == step_views(old(self).steps@).push(step@),
            final(self).steps@.len() == old(self).steps@.len() + 1,
    {
        let ghost before = self.steps@;
        self.steps.push(step);
        assert(step_views(self.steps@) =~= step_views(before).push(step@));
    }

    fn wire(&mut self, left: Port, right: Port)
        ensures
            final(self).waiting == old(self).waiting,
            step_views(final(self).steps@) == step_views(old(self).steps@).push(
                StepView::Wire(left@, right@),
            ),
            final(self).steps@.len() == old(self).steps@.len() + 1,
    {
        self.add(NetStep::Wire(left, right));
    }

    fn data_into(&mut self, data: NetData, target: Port, Ghost(templates): Ghost<Seq<NetTemplate>>)
        ensures
            net_of(*final(self), templates) == data_net(
                net_of(*old(self), templates),
                data@,
                target@,
            ),
    {
        let port = self.port(PortPlace::Result);
        self.add(NetStep::Data(data));
        self.wire(port, target);
        assert(net_of(*self, templates).steps =~= data_net(
            net_of(*old(self), templates),
            data@,
            target@,
        ).steps);
    }

    /// Applies what comes from a port, and returns the ports of the argument
    /// and of the result.
    fn bind(&mut self, output: Port, Ghost(templates): Ghost<Seq<NetTemplate>>) -> (ports: (
        Port,
        Port,
    ))
        ensures
            ({
                let (net, argument, result) = bound(net_of(*old(self), templates), output@);
                net_of(*final(self), templates) == net && ports.0@ == argument && ports.1@ == result
            }),
    {
        let application = self.port(PortPlace::Application);
        let argument = self.port(PortPlace::Argument(0));
        let result = self.port(PortPlace::Result);
        self.add(NetStep::Bind);
        self.wire(output, application);
        assert(net_of(*self, templates).steps =~= bound(
            net_of(*old(self), templates),
            output@,
        ).0.steps);
        (argument, result)
    }

    fn wait(&mut self, id: BindingId, target: Port, Ghost(templates): Ghost<Seq<NetTemplate>>)
        ensures
            net_of(*final(self), templates) == awaited(
                net_of(*old(self), templates),
                id.0 as nat,
                target@,
            ),
    {
        let ghost before = self.waiting@;
        self.waiting.push((id, target));
        assert(waiting_views(self.waiting@) =~= waiting_views(before).push(
            (id.0 as nat, target@),
        ));
    }

    /// Begins the application of an operator, and returns its port.
    fn operator(&mut self, operator: NetOperator, Ghost(templates): Ghost<Seq<NetTemplate>>) -> (
    output: Port)
        ensures
            net_of(*final(self), templates) == then_step(
                net_of(*old(self), templates),
                StepView::Operator(operator@),
            ),
            output@ == spot(net_of(*old(self), templates), Place::Result),
    {
        let output = self.port(PortPlace::Result);
        self.add(NetStep::Operator(operator));
        output
    }

    /// Ends an application.
    fn deliver(&mut self, output: Port, target: Port, Ghost(templates): Ghost<Seq<NetTemplate>>)
        ensures
            net_of(*final(self), templates) == wired(
                net_of(*old(self), templates),
                output@,
                target@,
            ),
    {
        self.wire(output, target);
    }

    fn binding_operator_application_into(
        &mut self,
        operator: NetOperator,
        bindings: &Vec<BindingId>,
        target: Port,
        Ghost(templates): Ghost<Seq<NetTemplate>>,
    )
        ensures
            net_of(*final(self), templates) == locals_net(
                net_of(*old(self), templates),
                operator@,
                values::ids(bindings@),
                target@,
            ),
    {
        let ghost ids = values::ids(bindings@);
        let mut output = self.operator(operator, Ghost(templates));
        let ghost first = net_of(*self, templates);
        let ghost start = output@;
        let mut k: usize = 0;
        assert(ids.take(0) =~= Seq::empty());
        while k < bindings.len()
            invariant
                k <= bindings.len(),
                ids == values::ids(bindings@),
                applied_to_locals(first, start, ids.take(k as int)) == (
                    net_of(*self, templates),
                    output@,
                ),
            decreases bindings.len() - k,
        {
            proof {
                assert(ids.take(k + 1).drop_last() =~= ids.take(k as int));
                assert(ids.take(k + 1).last() == bindings@[k as int].0);
            }
            let (argument, result) = self.bind(output, Ghost(templates));
            self.wait(bindings[k], argument, Ghost(templates));
            output = result;
            k = k + 1;
        }
        assert(ids.take(k as int) =~= ids);
        self.deliver(output, target, Ghost(templates));
    }

    /// Copies a source to all its targets.
    fn distribute(
        &mut self,
        source: Port,
        targets: &Vec<Port>,
        Ghost(templates): Ghost<Seq<NetTemplate>>,
    )
        ensures
            net_of(*final(self), templates) == distributed(
                net_of(*old(self), templates),
                source@,
                spots(targets@),
            ),
    {
        let ghost all = spots(targets@);
        let ghost copy = net_of(*self, templates).steps.len();
        let input = self.port(PortPlace::Input);
        let step = input.step;
        self.add(NetStep::Copy(targets.len()));
        self.wire(source, input);
        let ghost first = net_of(*self, templates);
        assert(first == wired(
            then_step(net_of(*old(self), templates), StepView::Copy(all.len())),
            source@,
            Spot { step: copy, place: Place::Input },
        ));
        let mut k: usize = 0;
        assert(all.take(0) =~= Seq::empty());
        while k < targets.len()
            invariant
                k <= targets.len(),
                step == copy,
                all == spots(targets@),
                net_of(*self, templates) == fanned(first, copy, all.take(k as int)),
            decreases targets.len() - k,
        {
            proof {
                assert(all.take(k + 1).drop_last() =~= all.take(k as int));
                assert(all.take(k + 1).last() == targets@[k as int]@);
            }
            self.wire(Port { step, place: PortPlace::Output(k) }, targets[k]);
            k = k + 1;
        }
        assert(all.take(k as int) =~= all);
    }

    /// Takes out the ports that wait for a local.
    fn claim(&mut self, id: BindingId, Ghost(templates): Ghost<Seq<NetTemplate>>) -> (targets: Vec<
        Port,
    >)
        ensures
            ({
                let before = net_of(*old(self), templates);
                &&& spots(targets@) == ports_of(before.waiting, id.0 as nat)
                &&& net_of(*final(self), templates) == (Net {
                    waiting: without(before.waiting, id.0 as nat),
                    ..before
                })
            }),
    {
        let ghost all = waiting_views(self.waiting@);
        let mut targets: Vec<Port> = Vec::new();
        let mut others: Vec<(BindingId, Port)> = Vec::new();
        let mut k: usize = 0;
        proof {
            assert(all.take(0) =~= Seq::empty());
            assert(spots(targets@) =~= Seq::empty());
            assert(waiting_views(others@) =~= Seq::empty());
        }
        while k < self.waiting.len()
            invariant
                *self == *old(self),
                k <= self.waiting.len(),
                all == waiting_views(self.waiting@),
                spots(targets@) == ports_of(all.take(k as int), id.0 as nat),
                waiting_views(others@) == without(all.take(k as int), id.0 as nat),
            decreases self.waiting.len() - k,
        {
            let (binding, port) = self.waiting[k];
            proof {
                assert(all.take(k + 1).drop_last() =~= all.take(k as int));
                assert(all.take(k + 1).last() == (binding.0 as nat, port@));
            }
            if binding.0 == id.0 {
                let ghost had = targets@;
                targets.push(port);
                assert(spots(targets@) =~= spots(had).push(port@));
            } else {
                let ghost had = others@;
                others.push((binding, port));
                assert(waiting_views(others@) =~= waiting_views(had).push(
                    (binding.0 as nat, port@),
                ));
            }
            k = k + 1;
        }
        assert(all.take(k as int) =~= all);
        self.waiting = others;
        targets
    }

    /// Takes the locals of a net from inputs.
    fn close_over(&mut self, inputs: &Vec<BindingId>, Ghost(templates): Ghost<Seq<NetTemplate>>)
        ensures
            net_of(*final(self), templates) == closed_over(
                net_of(*old(self), templates),
                values::ids(inputs@),
            ),
    {
        let ghost ids = values::ids(inputs@);
        let boundary = Port { step: 0, place: PortPlace::Input };
        if inputs.len() == 0 {
            self.add(NetStep::Finish(boundary));
            return;
        }
        let spine = self.steps.len();
        self.add(NetStep::BindSpine(inputs.len()));
        self.wire(Port { step: spine, place: PortPlace::Result }, boundary);
        let ghost first = net_of(*self, templates);
        let mut k: usize = 0;
        assert(ids.take(0) =~= Seq::empty());
        while k < inputs.len()
            invariant
                k <= inputs.len(),
                ids == values::ids(inputs@),
                net_of(*self, templates) == shared_out(first, spine as nat, ids.take(k as int)),
            decreases inputs.len() - k,
        {
            proof {
                assert(ids.take(k + 1).drop_last() =~= ids.take(k as int));
                assert(ids.take(k + 1).last() == inputs@[k as int].0);
            }
            let targets = self.claim(inputs[k], Ghost(templates));
            self.distribute(
                Port { step: spine, place: PortPlace::Argument(k) },
                &targets,
                Ghost(templates),
            );
            k = k + 1;
        }
        assert(ids.take(k as int) =~= ids);
        self.add(NetStep::Finish(Port { step: spine, place: PortPlace::Input }));
    }
}

pub open spec fn spots(ports: Seq<Port>) -> Seq<Spot> {
    ports.map_values(|port: Port| port@)
}

/// The components of a path.
fn data_keys(path: &Vec<ResolvedPathPart>) -> (keys: Vec<DataKey>)
    ensures
        keys@ == path_keys(path@),
{
    let ghost all = path_keys(path@);
    let mut keys: Vec<DataKey> = Vec::new();
    let mut k: usize = 0;
    assert(keys@ =~= all.take(0));
    while k < path.len()
        invariant
            k <= path.len(),
            all == path_keys(path@),
            keys@ == all.take(k as int),
        decreases path.len() - k,
    {
        let key = match &path[k] {
            ResolvedPathPart::Key(key) => DataKey::Key(key.copy()),
            ResolvedPathPart::Index(_) => DataKey::Index,
            ResolvedPathPart::PathIndex(_) => DataKey::PathIndex,
        };
        assert(all.take(k + 1) =~= all.take(k as int).push(all[k as int]));
        keys.push(key);
        k = k + 1;
    }
    assert(all.take(k as int) =~= all);
    keys
}

fn compile_into(
    code: &ResolvedExpr,
    target: Port,
    net: &mut NetBuilder,
    templates: &mut Vec<NetTemplate>,
)
    requires
        binds(*code),
    ensures
        net_of(*final(net), final(templates)@) == compiled(
            net_of(*old(net), old(templates)@),
            *code,
            target@,
        ),
    decreases code, 0nat,
{
    match code {
        ResolvedExpr::Embedded(value) | ResolvedExpr::Provided(value) => {
            net.data_into(NetData::Value(value.copy()), target, Ghost(templates@));
        },
        ResolvedExpr::Local(id) => net.wait(*id, target, Ghost(templates@)),
        ResolvedExpr::List(items) => {
            if items.len() == 0 {
                let none: Vec<Value> = Vec::new();
                proof {
                    values::no_forms();
                }
                net.data_into(NetData::Value(Value::list(none)), target, Ghost(templates@));
            } else {
                let output = net.operator(NetOperator::List(items.len()), Ghost(templates@));
                let output = apply_lazily(items, output, net, templates);
                net.deliver(output, target, Ghost(templates@));
            }
        },
        ResolvedExpr::Access { base, path } => {
            let output = net.operator(NetOperator::Access(data_keys(path)), Ghost(templates@));
            let (argument, result) = net.bind(output, Ghost(templates@));
            compile_into(base, argument, net, templates);
            let output = apply_to_path(path, result, net, templates);
            net.deliver(output, target, Ghost(templates@));
        },
        ResolvedExpr::Lambda(parameters, body) => function_into(
            parameters,
            body,
            target,
            net,
            templates,
        ),
        ResolvedExpr::Apply(function, arguments) => {
            let output = net.operator(NetOperator::ApplyArity(arguments.len()), Ghost(templates@));
            let (argument, result) = net.bind(output, Ghost(templates@));
            compile_into(function, argument, net, templates);
            let output = apply_lazily(arguments, result, net, templates);
            net.deliver(output, target, Ghost(templates@));
        },
    }
}

fn function_into(
    parameters: &Vec<BindingId>,
    body: &ResolvedExpr,
    target: Port,
    net: &mut NetBuilder,
    templates: &mut Vec<NetTemplate>,
)
    requires
        binds(*body),
    ensures
        ({
            let before = net_of(*old(net), old(templates)@);
            let ids = values::ids(parameters@);
            let captures = captured(ids, *body);
            let after = with_template(before.templates, ids, *body);
            let own = Net { templates: after, ..before };
            let t = (after.len() - 1) as nat;
            net_of(*final(net), final(templates)@) == if captures.len() == 0 {
                data_net(own, DataView::Function(t), target@)
            } else {
                locals_net(own, OperatorView::CaptureFunction(t), captures, target@)
            }
        }),
    decreases body, 3nat,
{
    let captures = lower_template(parameters, body, templates);
    let t = templates.len() - 1;
    if captures.len() == 0 {
        net.data_into(NetData::Function(t), target, Ghost(templates@));
    } else {
        net.binding_operator_application_into(
            NetOperator::CaptureFunction(t),
            &captures,
            target,
            Ghost(templates@),
        );
    }
}

fn compile_lazy_into(
    code: &ResolvedExpr,
    target: Port,
    net: &mut NetBuilder,
    templates: &mut Vec<NetTemplate>,
)
    requires
        binds(*code),
    ensures
        net_of(*final(net), final(templates)@) == compiled_lazily(
            net_of(*old(net), old(templates)@),
            *code,
            target@,
        ),
    decreases code, 3nat,
{
    match code {
        ResolvedExpr::Embedded(value) | ResolvedExpr::Provided(value) => {
            net.data_into(NetData::Value(value.copy()), target, Ghost(templates@));
        },
        _ => {
            let none: Vec<BindingId> = Vec::new();
            assert(values::ids(none@) =~= Seq::empty());
            let captures = lower_template(&none, code, templates);
            let t = templates.len() - 1;
            if captures.len() == 0 {
                net.data_into(NetData::Computation(t), target, Ghost(templates@));
            } else {
                net.binding_operator_application_into(
                    NetOperator::CaptureComputation(t),
                    &captures,
                    target,
                    Ghost(templates@),
                );
            }
        },
    }
}

/// Applies what comes from a port to computations.
fn apply_lazily(
    items: &Vec<ResolvedExpr>,
    output: Port,
    net: &mut NetBuilder,
    templates: &mut Vec<NetTemplate>,
) -> (result: Port)
    requires
        binds_all(items@),
    ensures
        applied_lazily(net_of(*old(net), old(templates)@), output@, items@) == (
            net_of(*final(net), final(templates)@),
            result@,
        ),
    decreases items, 4nat,
{
    let ghost first = net_of(*net, templates@);
    let mut result = output;
    let mut k: usize = 0;
    assert(items@.take(0) =~= Seq::empty());
    while k < items.len()
        invariant
            k <= items.len(),
            binds_all(items@),
            applied_lazily(first, output@, items@.take(k as int)) == (
                net_of(*net, templates@),
                result@,
            ),
        decreases items.len() - k,
    {
        assert(items@.take(k + 1).drop_last() =~= items@.take(k as int));
        assert(items@.take(k + 1).last() == items@[k as int]);
        let (argument, next) = net.bind(result, Ghost(templates@));
        compile_lazy_into(&items[k], argument, net, templates);
        result = next;
        k = k + 1;
    }
    assert(items@.take(k as int) =~= items@);
    result
}

/// Applies what comes from a port to the computed components of a path.
fn apply_to_path(
    path: &Vec<ResolvedPathPart>,
    output: Port,
    net: &mut NetBuilder,
    templates: &mut Vec<NetTemplate>,
) -> (result: Port)
    requires
        binds_path(path@),
    ensures
        applied_to_path(net_of(*old(net), old(templates)@), output@, path@) == (
            net_of(*final(net), final(templates)@),
            result@,
        ),
    decreases path, 4nat,
{
    let ghost first = net_of(*net, templates@);
    let mut result = output;
    let mut k: usize = 0;
    assert(path@.take(0) =~= Seq::empty());
    while k < path.len()
        invariant
            k <= path.len(),
            binds_path(path@),
            applied_to_path(first, output@, path@.take(k as int)) == (
                net_of(*net, templates@),
                result@,
            ),
        decreases path.len() - k,
    {
        assert(path@.take(k + 1).drop_last() =~= path@.take(k as int));
        assert(path@.take(k + 1).last() == path@[k as int]);
        assert(binds_part(path@[k as int]));
        result = apply_to_part(&path[k], result, net, templates);
        k = k + 1;
    }
    assert(path@.take(k as int) =~= path@);
    result
}

fn apply_to_part(
    part: &ResolvedPathPart,
    output: Port,
    net: &mut NetBuilder,
    templates: &mut Vec<NetTemplate>,
) -> (result: Port)
    requires
        binds_part(*part),
    ensures
        applied_to_part(net_of(*old(net), old(templates)@), output@, *part) == (
            net_of(*final(net), final(templates)@),
            result@,
        ),
    decreases part, 4nat,
{
    match part {
        ResolvedPathPart::Key(_) => output,
        ResolvedPathPart::Index(code) => {
            let (argument, result) = net.bind(output, Ghost(templates@));
            compile_into(code, argument, net, templates);
            result
        },
        ResolvedPathPart::PathIndex(code) => {
            let (argument, result) = net.bind(output, Ghost(templates@));
            compile_into(code, argument, net, templates);
            result
        },
    }
}

/// Adds the template of a function, after those of the code within it, and
/// returns what it captures.
fn lower_template(
    parameters: &Vec<BindingId>,
    body: &ResolvedExpr,
    templates: &mut Vec<NetTemplate>,
) -> (captures: Vec<BindingId>)
    requires
        binds(*body),
    ensures
        values::ids(captures@) == captured(values::ids(parameters@), *body),
        template_views(final(templates)@) == with_template(
            template_views(old(templates)@),
            values::ids(parameters@),
            *body,
        ),
        final(templates)@.len() > 0,
    decreases body, 2nat,
{
    let code = lower_code(parameters, body);
    proof {
        captures_are(code.captures@, parameters@, *body);
        assert(values::ids(code.inputs@) =~= values::ids(code.captures@) + values::ids(
            parameters@,
        ));
    }
    let mut net = NetBuilder { steps: Vec::new(), waiting: Vec::new() };
    let ghost empty = net_of(net, templates@);
    assert(empty.steps =~= Seq::empty());
    assert(empty.waiting =~= Seq::empty());
    net.add(NetStep::Copy(1));
    compile_into(body, Port { step: 0, place: PortPlace::Output(0) }, &mut net, templates);
    net.close_over(&code.inputs, Ghost(templates@));
    let captures = copy_locals(&code.captures);
    let ghost before = templates@;
    let template = NetTemplate {
        captures: code.captures,
        arity: code.arity,
        steps: net.steps,
    };
    templates.push(template);
    assert(template_views(templates@) =~= template_views(before).push(template@));
    captures
}

fn copy_locals(locals: &Vec<BindingId>) -> (copy: Vec<BindingId>)
    ensures
        copy@ == locals@,
{
    let mut copy: Vec<BindingId> = Vec::new();
    let mut k: usize = 0;
    while k < locals.len()
        invariant
            k <= locals.len(),
            copy@ == locals@.take(k as int),
        decreases locals.len() - k,
    {
        copy.push(locals[k]);
        assert(copy@ =~= locals@.take(k + 1));
        k = k + 1;
    }
    assert(copy@ =~= locals@);
    copy
}

/// The templates of a function and of the code within it. That of the function
/// comes last.
pub fn net_steps(parameters: &Vec<BindingId>, body: &ResolvedExpr) -> (templates: Vec<NetTemplate>)
    requires
        binds(*body),
    ensures
        template_views(templates@) == with_template(
            Seq::empty(),
            values::ids(parameters@),
            *body,
        ),
{
    let mut templates: Vec<NetTemplate> = Vec::new();
    assert(template_views(templates@) =~= Seq::empty());
    let _ = lower_template(parameters, body, &mut templates);
    templates
}

/// The ports that a net waits for locals with are those that another waits
/// with, and more for some of the given locals.
pub open spec fn waits_more(before: Net, after: Net, locals: Set<nat>) -> bool {
    &&& before.waiting.len() <= after.waiting.len()
    &&& after.waiting.take(before.waiting.len() as int) == before.waiting
    &&& forall|k: int|
        before.waiting.len() <= k < after.waiting.len() ==> locals.contains(
            (#[trigger] after.waiting[k]).0,
        )
}

proof fn waits_same(net: Net, locals: Set<nat>)
    ensures
        waits_more(net, net, locals),
{
    assert(net.waiting.take(net.waiting.len() as int) =~= net.waiting);
}

proof fn waits_trans(a: Net, b: Net, c: Net, first: Set<nat>, second: Set<nat>)
    requires
        waits_more(a, b, first),
        waits_more(b, c, second),
    ensures
        waits_more(a, c, first.union(second)),
{
    let n = a.waiting.len() as int;
    let m = b.waiting.len() as int;
    assert(c.waiting.take(n) =~= b.waiting.take(n)) by {
        assert(c.waiting.take(m).take(n) =~= c.waiting.take(n));
    }
    assert forall|k: int| n <= k < c.waiting.len() implies first.union(second).contains(
        (#[trigger] c.waiting[k]).0,
    ) by {
        if k < m {
            assert(c.waiting.take(m)[k] == c.waiting[k]);
            assert(first.contains(b.waiting[k].0));
        }
    }
}

proof fn waits_within(a: Net, b: Net, locals: Set<nat>, all: Set<nat>)
    requires
        waits_more(a, b, locals),
        locals.subset_of(all),
    ensures
        waits_more(a, b, all),
{
}

proof fn awaited_waits(net: Net, id: nat, target: Spot, locals: Set<nat>)
    requires
        locals.contains(id),
    ensures
        waits_more(net, awaited(net, id, target), locals),
{
    assert(awaited(net, id, target).waiting.take(net.waiting.len() as int) =~= net.waiting);
}

proof fn locals_wait(net: Net, output: Spot, ids: Seq<nat>, locals: Set<nat>)
    requires
        forall|k: int| 0 <= k < ids.len() ==> locals.contains(#[trigger] ids[k]),
    ensures
        waits_more(net, applied_to_locals(net, output, ids).0, locals),
    decreases ids.len(),
{
    waits_same(net, locals);
    if ids.len() > 0 {
        let front = ids.drop_last();
        assert forall|k: int| 0 <= k < front.len() implies locals.contains(#[trigger] front[k]) by {
            assert(front[k] == ids[k]);
        }
        locals_wait(net, output, front, locals);
        let (before, out) = applied_to_locals(net, output, front);
        let (opened, argument, _) = bound(before, out);
        assert(locals.contains(ids[ids.len() - 1]));
        awaited_waits(opened, ids.last(), argument, locals);
        waits_trans(net, opened, awaited(opened, ids.last(), argument), locals, locals);
        assert(locals.union(locals) =~= locals);
    }
}

/// What a template captures is free in it.
pub proof fn captured_is_free(parameters: Seq<BindingId>, body: ResolvedExpr)
    ensures
        captured(values::ids(parameters), body).to_set() == net_lowering::free(body).difference(
            values::ids(parameters).to_set(),
        ),
        forall|k: int|
            0 <= k < captured(values::ids(parameters), body).len() ==> net_lowering::free(
                body,
            ).contains(#[trigger] captured(values::ids(parameters), body)[k])
                && !values::ids(parameters).to_set().contains(
                captured(values::ids(parameters), body)[k],
            ),
{
    let set = net_lowering::free(body).difference(values::ids(parameters).to_set());
    free_is_finite(body);
    ascending_exists(set);
    let found = captured(values::ids(parameters), body);
    assert forall|k: int| 0 <= k < found.len() implies set.contains(#[trigger] found[k]) by {
        assert(found.to_set().contains(found[k]));
    }
}

/// A finite set of numbers has an ascending list.
proof fn ascending_exists(set: Set<nat>)
    requires
        set.finite(),
    ensures
        exists|ids: Seq<nat>| rises(ids) && #[trigger] ids.to_set() == set,
    decreases set.len(),
{
    if set.len() == 0 {
        let none = Seq::<nat>::empty();
        assert(none.to_set() =~= set);
        assert(rises(none));
    } else {
        let top = greatest(set);
        let rest = set.remove(top);
        ascending_exists(rest);
        let ids = choose|ids: Seq<nat>| rises(ids) && #[trigger] ids.to_set() == rest;
        let all = ids.push(top);
        assert forall|i: int, j: int| 0 <= i < j < all.len() implies #[trigger] all[i]
            < #[trigger] all[j] by {
            assert(rest.contains(ids[i])) by {
                assert(ids.to_set().contains(ids[i]));
            }
            if j < ids.len() {
                assert(ids[i] < ids[j]);
            }
        }
        assert forall|n: nat| #[trigger] all.to_set().contains(n) == set.contains(n) by {
            if all.to_set().contains(n) {
                let k = choose|k: int| 0 <= k < all.len() && all[k] == n;
                if k < ids.len() {
                    assert(ids.to_set().contains(ids[k]));
                }
            }
            if set.contains(n) {
                if n == top {
                    assert(all[ids.len() as int] == n);
                } else {
                    assert(rest.contains(n));
                    assert(ids.to_set().contains(n));
                    let k = choose|k: int| 0 <= k < ids.len() && ids[k] == n;
                    assert(all[k] == n);
                }
            }
        }
        assert(all.to_set() =~= set);
        assert(rises(all));
    }
}

/// The greatest number of a finite set.
proof fn greatest(set: Set<nat>) -> (top: nat)
    requires
        set.finite(),
        set.len() > 0,
    ensures
        set.contains(top),
        forall|n: nat| #[trigger] set.contains(n) ==> n <= top,
    decreases set.len(),
{
    let some = set.choose();
    let rest = set.remove(some);
    if rest.len() == 0 {
        assert forall|n: nat| #[trigger] set.contains(n) implies n <= some by {
            if n != some {
                assert(rest.contains(n));
                assert(rest =~= Set::empty());
            }
        }
        some
    } else {
        let top = greatest(rest);
        let best = if top < some {
            some
        } else {
            top
        };
        assert forall|n: nat| #[trigger] set.contains(n) implies n <= best by {
            if n != some {
                assert(rest.contains(n));
            }
        }
        best
    }
}

proof fn free_is_finite(code: ResolvedExpr)
    ensures
        net_lowering::free(code).finite(),
    decreases code,
{
    match code {
        ResolvedExpr::List(items) => {
            free_all_is_finite(items@);
        },
        ResolvedExpr::Access { base, path } => {
            free_is_finite(*base);
            free_path_is_finite(path@);
        },
        ResolvedExpr::Lambda(_, body) => {
            free_is_finite(*body);
        },
        ResolvedExpr::Apply(function, arguments) => {
            free_is_finite(*function);
            free_all_is_finite(arguments@);
        },
        _ => {},
    }
}

proof fn free_all_is_finite(items: Seq<ResolvedExpr>)
    ensures
        net_lowering::free_all(items).finite(),
    decreases items,
{
    if items.len() > 0 {
        free_all_is_finite(items.drop_last());
        free_is_finite(items.last());
    }
}

proof fn free_path_is_finite(path: Seq<ResolvedPathPart>)
    ensures
        net_lowering::free_path(path).finite(),
    decreases path,
{
    if path.len() > 0 {
        free_path_is_finite(path.drop_last());
        let part = path.last();
        match part {
            ResolvedPathPart::Key(_) => {},
            ResolvedPathPart::Index(code) => {
                free_is_finite(code);
            },
            ResolvedPathPart::PathIndex(code) => {
                free_is_finite(code);
            },
        }
        assert(net_lowering::free_step(part).finite());
    }
}

/// A net waits only for locals that its code leaves free.
pub proof fn compiled_waits(net: Net, code: ResolvedExpr, target: Spot)
    ensures
        waits_more(net, compiled(net, code, target), net_lowering::free(code)),
    decreases code, 0nat,
{
    let free = net_lowering::free(code);
    waits_same(net, free);
    match code {
        ResolvedExpr::Embedded(_) => {},
        ResolvedExpr::Provided(_) => {},
        ResolvedExpr::Local(id) => {
            awaited_waits(net, id.0 as nat, target, free);
        },
        ResolvedExpr::List(items) => {
            if items@.len() > 0 {
                let begun = then_step(
                    net,
                    StepView::Operator(OperatorView::List(items@.len())),
                );
                lazily_waits(begun, spot(net, Place::Result), items@);
            }
        },
        ResolvedExpr::Access { base, path } => {
            let begun = then_step(net, StepView::Operator(OperatorView::Access(path_keys(path@))));
            let (opened, argument, result) = bound(begun, spot(net, Place::Result));
            let middle = compiled(opened, *base, argument);
            compiled_waits(opened, *base, argument);
            path_waits(middle, result, path@);
            waits_trans(
                opened,
                middle,
                applied_to_path(middle, result, path@).0,
                net_lowering::free(*base),
                net_lowering::free_path(path@),
            );
        },
        ResolvedExpr::Lambda(parameters, body) => {
            let ids = values::ids(parameters@);
            let captures = captured(ids, *body);
            let templates = with_template(net.templates, ids, *body);
            let own = Net { templates, ..net };
            let t = (templates.len() - 1) as nat;
            captured_is_free(parameters@, *body);
            ids_as_set(parameters@);
            let begun = then_step(own, StepView::Operator(OperatorView::CaptureFunction(t)));
            locals_wait(begun, spot(own, Place::Result), captures, free);
        },
        ResolvedExpr::Apply(function, arguments) => {
            let begun = then_step(
                net,
                StepView::Operator(OperatorView::ApplyArity(arguments@.len())),
            );
            let (opened, argument, result) = bound(begun, spot(net, Place::Result));
            let middle = compiled(opened, *function, argument);
            compiled_waits(opened, *function, argument);
            lazily_waits(middle, result, arguments@);
            waits_trans(
                opened,
                middle,
                applied_lazily(middle, result, arguments@).0,
                net_lowering::free(*function),
                net_lowering::free_all(arguments@),
            );
        },
    }
}

pub proof fn lazily_waits(net: Net, output: Spot, items: Seq<ResolvedExpr>)
    ensures
        waits_more(net, applied_lazily(net, output, items).0, net_lowering::free_all(items)),
    decreases items, 4nat,
{
    waits_same(net, net_lowering::free_all(items));
    if items.len() > 0 {
        lazily_waits(net, output, items.drop_last());
        let (before, out) = applied_lazily(net, output, items.drop_last());
        let (opened, argument, _) = bound(before, out);
        let code = items.last();
        let free = net_lowering::free(code);
        let after = compiled_lazily(opened, code, argument);
        waits_same(opened, free);
        if !(code is Embedded || code is Provided) {
            let none = Seq::<BindingId>::empty();
            assert(values::ids(none) =~= Seq::empty());
            captured_is_free(none, code);
            let captures = captured(Seq::empty(), code);
            let templates = with_template(opened.templates, Seq::empty(), code);
            let own = Net { templates, ..opened };
            let t = (templates.len() - 1) as nat;
            let begun = then_step(own, StepView::Operator(OperatorView::CaptureComputation(t)));
            locals_wait(begun, spot(own, Place::Result), captures, free);
        }
        assert(waits_more(opened, after, free));
        waits_trans(net, opened, after, net_lowering::free_all(items.drop_last()), free);
    }
}

pub proof fn path_waits(net: Net, output: Spot, path: Seq<ResolvedPathPart>)
    ensures
        waits_more(net, applied_to_path(net, output, path).0, net_lowering::free_path(path)),
    decreases path, 4nat,
{
    waits_same(net, net_lowering::free_path(path));
    if path.len() > 0 {
        path_waits(net, output, path.drop_last());
        let (before, out) = applied_to_path(net, output, path.drop_last());
        let (opened, argument, _) = bound(before, out);
        let part = path.last();
        let free = net_lowering::free_step(part);
        waits_same(before, free);
        match part {
            ResolvedPathPart::Key(_) => {},
            ResolvedPathPart::Index(code) => {
                compiled_waits(opened, code, argument);
            },
            ResolvedPathPart::PathIndex(code) => {
                compiled_waits(opened, code, argument);
            },
        }
        waits_trans(
            net,
            before,
            applied_to_part(before, out, part).0,
            net_lowering::free_path(path.drop_last()),
            free,
        );
    }
}

/// Whether ports wait for locals of a set only.
pub open spec fn waits_for(waiting: Seq<(nat, Spot)>, locals: Set<nat>) -> bool {
    forall|k: int| 0 <= k < waiting.len() ==> locals.contains((#[trigger] waiting[k]).0)
}

proof fn without_waits(waiting: Seq<(nat, Spot)>, id: nat, locals: Set<nat>)
    requires
        waits_for(waiting, locals),
    ensures
        waits_for(without(waiting, id), locals.remove(id)),
    decreases waiting.len(),
{
    if waiting.len() > 0 {
        let front = waiting.drop_last();
        assert forall|k: int| 0 <= k < front.len() implies locals.contains(
            (#[trigger] front[k]).0,
        ) by {
            assert(front[k] == waiting[k]);
        }
        without_waits(front, id, locals);
        assert(locals.contains(waiting[waiting.len() - 1].0));
    }
}

proof fn fanned_waits(net: Net, copy: nat, targets: Seq<Spot>)
    ensures
        fanned(net, copy, targets).waiting == net.waiting,
    decreases targets.len(),
{
    if targets.len() > 0 {
        fanned_waits(net, copy, targets.drop_last());
    }
}

proof fn shared_waits(net: Net, spine: nat, inputs: Seq<nat>, locals: Set<nat>)
    requires
        waits_for(net.waiting, locals),
    ensures
        waits_for(shared_out(net, spine, inputs).waiting, locals.difference(inputs.to_set())),
    decreases inputs.len(),
{
    if inputs.len() == 0 {
        assert(locals.difference(inputs.to_set()) =~= locals);
    } else {
        let front = inputs.drop_last();
        shared_waits(net, spine, front, locals);
        let before = shared_out(net, spine, front);
        let id = inputs.last();
        without_waits(before.waiting, id, locals.difference(front.to_set()));
        let own = Net { waiting: without(before.waiting, id), ..before };
        let targets = ports_of(before.waiting, id);
        let copy = own.steps.len();
        fanned_waits(
            wired(
                then_step(own, StepView::Copy(targets.len())),
                Spot { step: spine, place: Place::Argument((inputs.len() - 1) as nat) },
                Spot { step: copy, place: Place::Input },
            ),
            copy,
            targets,
        );
        let rest = locals.difference(front.to_set()).remove(id);
        assert forall|n: nat| #[trigger] rest.contains(n) implies locals.difference(
            inputs.to_set(),
        ).contains(n) by {
            if inputs.to_set().contains(n) {
                let k = choose|k: int| 0 <= k < inputs.len() && inputs[k] == n;
                if k < front.len() {
                    assert(front[k] == n);
                    assert(front.to_set().contains(n));
                }
            }
        }
    }
}

/// Every port that waits for a local is wired to an input: the template of a
/// function leaves none.
pub proof fn templates_wire_every_local(
    templates: Seq<TemplateView>,
    parameters: Seq<BindingId>,
    body: ResolvedExpr,
)
    ensures
        ({
            let ids = values::ids(parameters);
            finished(templates, captured(ids, body) + ids, body).waiting.len() == 0
        }),
{
    let ids = values::ids(parameters);
    let captures = captured(ids, body);
    let inputs = captures + ids;
    let free = net_lowering::free(body);
    let empty = Net { templates, steps: Seq::empty(), waiting: Seq::empty() };
    let begun = then_step(empty, StepView::Copy(1));
    let target = Spot { step: 0, place: Place::Output(0) };
    let net = compiled(begun, body, target);
    compiled_waits(begun, body, target);
    captured_is_free(parameters, body);
    assert(waits_for(net.waiting, free));
    assert forall|n: nat| #[trigger] free.contains(n) implies inputs.to_set().contains(n) by {
        if ids.to_set().contains(n) {
            let k = choose|k: int| 0 <= k < ids.len() && ids[k] == n;
            assert(inputs[captures.len() + k] == n);
        } else {
            assert(captures.to_set().contains(n));
            let k = choose|k: int| 0 <= k < captures.len() && captures[k] == n;
            assert(inputs[k] == n);
        }
    }
    let left = closed_over(net, inputs).waiting;
    if inputs.len() == 0 {
        if left.len() > 0 {
            assert(free.contains(net.waiting[0].0));
            assert(inputs.to_set().contains(net.waiting[0].0));
        }
    } else {
        let spine = net.steps.len();
        let opened = wired(
            then_step(net, StepView::BindSpine(inputs.len())),
            Spot { step: spine, place: Place::Result },
            Spot { step: 0, place: Place::Input },
        );
        shared_waits(opened, spine, inputs, free);
        if left.len() > 0 {
            assert(free.difference(inputs.to_set()).contains(left[0].0));
        }
    }
}

} // verus!
