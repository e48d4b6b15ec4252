//! The dataflow graph of an application: the nodes that a stream of
//! transformations adds, and the wiring that building the application gives
//! them.
//!
//! The graph holds what each node is and how it is connected. The operators
//! themselves stand in the stream's pipeline, one behind the other, which
//! says what the stream carries for each element of the source.

use crate::backend::Backend;
use crate::function::{Filter, FlatMap, MapEach, MapInPlace, Operator};
use crate::operator::ArconElement;
use core::marker::PhantomData;
use vstd::prelude::*;
use vstd::string::StringExecFns;

verus! {

/// How a node sends its output on.
#[derive(Debug, Clone, Copy, PartialEq, Eq, Structural)]
pub enum ChannelKind {
    /// To the node that follows.
    Forward,
    /// To the console.
    Console,
    /// Nowhere.
    Mute,
}

/// The identifier of one instance of a node, as its neighbours know it.
#[derive(Debug, Clone, Copy, PartialEq, Eq, Structural)]
pub struct NodeID {
    pub id: u32,
}

impl NodeID {
    /// The identifier with the number `id`.
    pub fn new(id: u32) -> (n: NodeID)
        ensures
            n.id == id,
    {
        NodeID { id }
    }
}

/// The place of a node in the graph.
#[derive(Debug, Clone, Copy, PartialEq, Eq, Structural)]
pub struct DFGNodeID(pub usize);

/// What an operator does with an element.
#[derive(Debug, Clone, Copy, PartialEq, Eq, Structural)]
pub enum OperatorKind {
    MapEach,
    MapInPlace,
    Filter,
    FlatMap,
    Custom,
}

/// What a node of the graph is.
#[derive(Debug, Clone, Copy, PartialEq, Eq, Structural)]
pub enum DFGNodeKind {
    Source,
    Node(OperatorKind),
}

/// How many instances of an operator run.
#[derive(Debug, Clone, Copy, PartialEq, Eq, Structural)]
pub enum ParallelismStrategy {
    /// A fixed number.
    Static(usize),
    /// A number that the runtime manages.
    Managed,
}

/// The configuration of an operator.
#[derive(Debug, Clone, Copy)]
pub struct OperatorConf {
    pub parallelism_strategy: ParallelismStrategy,
}

impl OperatorConf {
    /// The default configuration: one instance.
    pub fn new() -> (c: OperatorConf)
        ensures
            c.parallelism_strategy == ParallelismStrategy::Static(1),
    {
        OperatorConf { parallelism_strategy: ParallelismStrategy::Static(1) }
    }
}

/// What is needed to add an operator to the graph: the operator, what kind
/// it is of, the identifier of its state, and its configuration.
pub struct OperatorBuilder<OP> {
    pub operator: OP,
    pub kind: OperatorKind,
    pub state_id: String,
    pub conf: OperatorConf,
}

impl<OP> OperatorBuilder<OP> {
    /// The builder of an operator without state, with the default
    /// configuration.
    pub fn stateless(kind: OperatorKind, operator: OP) -> (b: OperatorBuilder<OP>)
        ensures
            b.operator == operator,
            b.kind == kind,
            b.state_id@ == "!"@,
            b.conf.parallelism_strategy == ParallelismStrategy::Static(1),
    {
        OperatorBuilder { operator, kind, state_id: "!".to_owned(), conf: OperatorConf::new() }
    }
}

/// The operators from the source of a stream to its last node: what the
/// stream carries for one element of the source.
pub trait Pipeline {
    type Source;

    type Item;

    /// Whether every operator of the pipeline takes every element.
    spec fn ready(&self) -> bool;

    /// Whether `out` is what the stream may carry for the element `element`
    /// of the source.
    spec fn carries(
        &self,
        element: ArconElement<Self::Source>,
        out: Seq<ArconElement<Self::Item>>,
    ) -> bool;

    /// Sends one element of the source through the operators, one after the
    /// other, and gives what comes out at the end.
    fn feed(&self, element: ArconElement<Self::Source>) -> (out: Vec<ArconElement<Self::Item>>)
        requires
            self.ready(),
        ensures
            self.carries(element, out@),
    ;
}

/// The pipeline of a stream that comes from the source as it is.
pub struct FromSource<T> {
    pub marker: PhantomData<T>,
}

impl<T> Pipeline for FromSource<T> {
    type Source = T;

    type Item = T;

    open spec fn ready(&self) -> bool {
        true
    }

    open spec fn carries(&self, element: ArconElement<T>, out: Seq<ArconElement<T>>) -> bool {
        out == seq![element]
    }

    fn feed(&self, element: ArconElement<T>) -> (out: Vec<ArconElement<T>>) {
        let mut out: Vec<ArconElement<T>> = Vec::new();
        out.push(element);
        assert(out@ =~= seq![element]);
        out
    }
}

/// A pipeline with one more operator behind it.
pub struct Then<P, O> {
    pub upstream: P,
    pub operator: O,
}

/// The sequences of `parts`, one after the other.
pub open spec fn joined<T>(parts: Seq<Seq<T>>) -> Seq<T>
    decreases parts.len(),
{
    if parts.len() == 0 {
        Seq::empty()
    } else {
        joined(parts.drop_last()) + parts.last()
    }
}

/// Whether `parts` holds, for each element of `mid`, what `operator` may give
/// out for it.
pub open spec fn each_gives<O: Operator>(
    operator: O,
    mid: Seq<ArconElement<O::IN>>,
    parts: Seq<Seq<ArconElement<O::OUT>>>,
) -> bool {
    &&& parts.len() == mid.len()
    &&& forall|i: int| 0 <= i < mid.len() ==> operator.gives(mid[i], #[trigger] parts[i])
}

/// Whether `out` is what `operator` may give out for the elements `mid`,
/// taken one by one: what it gives for the first, then what it gives for the
/// second, and so on.
pub open spec fn stepped<O: Operator>(
    operator: O,
    mid: Seq<ArconElement<O::IN>>,
    out: Seq<ArconElement<O::OUT>>,
) -> bool {
    exists|parts: Seq<Seq<ArconElement<O::OUT>>>|
        #[trigger] each_gives(operator, mid, parts) && out == joined(parts)
}

/// Whether `out` is what the operator behind `upstream` may give out for what
/// `upstream` may carry for `element`.
pub open spec fn carried_on<P: Pipeline, O: Operator<IN = P::Item>>(
    upstream: P,
    operator: O,
    element: ArconElement<P::Source>,
    out: Seq<ArconElement<O::OUT>>,
) -> bool {
    exists|mid: Seq<ArconElement<P::Item>>|
        #[trigger] upstream.carries(element, mid) && stepped(operator, mid, out)
}

/// What a pipeline with one more operator is ready for and what it carries,
/// said over the pipeline before and the operator.
pub proof fn lemma_then<P: Pipeline, O: Operator<IN = P::Item>>(
    pipeline: Then<P, O>,
    element: ArconElement<P::Source>,
    out: Seq<ArconElement<O::OUT>>,
)
    ensures
        pipeline.ready() == (pipeline.upstream.ready() && pipeline.operator.ready()),
        pipeline.carries(element, out) == carried_on(
            pipeline.upstream,
            pipeline.operator,
            element,
            out,
        ),
{
}

/// What comes from the source is carried as it is.
pub proof fn lemma_from_source<T>(
    pipeline: FromSource<T>,
    element: ArconElement<T>,
    out: Seq<ArconElement<T>>,
)
    ensures
        pipeline.ready(),
        pipeline.carries(element, out) == (out == seq![element]),
{
}

impl<P: Pipeline, O: Operator<IN = P::Item>> Pipeline for Then<P, O> {
    type Source = P::Source;

    type Item = O::OUT;

    open spec fn ready(&self) -> bool {
        self.upstream.ready() && self.operator.ready()
    }

    open spec fn carries(
        &self,
        element: ArconElement<P::Source>,
        out: Seq<ArconElement<O::OUT>>,
    ) -> bool {
        carried_on(self.upstream, self.operator, element, out)
    }

    fn feed(&self, element: ArconElement<P::Source>) -> (out: Vec<ArconElement<O::OUT>>) {
        let mid = self.upstream.feed(element);
        let ghost given = mid@;
        let mut rest = crate::function::reversed(mid);
        let ghost turned = rest@;
        let mut out: Vec<ArconElement<O::OUT>> = Vec::new();
        let ghost mut parts: Seq<Seq<ArconElement<O::OUT>>> = Seq::empty();
        while rest.len() > 0
            invariant
                self.operator.ready(),
                turned.len() == given.len(),
                forall|i: int| 0 <= i < turned.len() ==> turned[i] == given[given.len() - 1 - i],
                rest@ == turned.subrange(0, rest@.len() as int),
                parts.len() + rest@.len() == given.len(),
                forall|i: int|
                    0 <= i < parts.len() ==> self.operator.gives(given[i], #[trigger] parts[i]),
                out@ == joined(parts),
            decreases rest@.len(),
        {
            let ghost before = rest@;
            let ghost done = parts;
            match rest.pop() {
                Some(x) => {
                    assert(x == turned[before.len() - 1]);
                    assert(x == given[done.len() as int]);
                    let mut made = self.operator.handle_element(x);
                    proof {
                        parts = parts.push(made@);
                        assert(parts.drop_last() =~= done);
                        assert(rest@ =~= turned.subrange(0, rest@.len() as int));
                    }
                    out.append(&mut made);
                },
                None => {},
            }
        }
        proof {
            assert(each_gives(self.operator, given, parts));
            assert(stepped(self.operator, given, out@));
            assert(carried_on(self.upstream, self.operator, element, out@));
        }
        out
    }
}

/// What the graph holds of a node.
pub ghost struct NodeView {
    pub kind: DFGNodeKind,
    pub outgoing_channels: usize,
    pub ingoing_channels: usize,
    pub channel_kind: ChannelKind,
    pub upstream: Seq<DFGNodeID>,
    pub state_dir: Seq<char>,
    pub state_id: Seq<char>,
}

/// A node of the graph.
#[derive(Debug)]
pub struct DFGNode {
    kind: DFGNodeKind,
    outgoing_channels: usize,
    ingoing_channels: usize,
    channel_kind: ChannelKind,
    upstream: Vec<DFGNodeID>,
    state_dir: String,
    state_id: String,
}

impl View for DFGNode {
    type V = NodeView;

    closed spec fn view(&self) -> NodeView {
        NodeView {
            kind: self.kind,
            outgoing_channels: self.outgoing_channels,
            ingoing_channels: self.ingoing_channels,
            channel_kind: self.channel_kind,
            upstream: self.upstream@,
            state_dir: self.state_dir@,
            state_id: self.state_id@,
        }
    }
}

/// The views of the nodes of a graph.
pub closed spec fn node_views(nodes: Seq<DFGNode>) -> Seq<NodeView> {
    Seq::new(nodes.len(), |i: int| nodes[i]@)
}

/// The dataflow graph: its nodes, in the order in which they were added.
#[derive(Debug)]
pub struct DFG {
    graph: Vec<DFGNode>,
}

impl View for DFG {
    type V = Seq<NodeView>;

    closed spec fn view(&self) -> Seq<NodeView> {
        node_views(self.graph@)
    }
}

impl DFG {
    /// The empty graph.
    pub fn new() -> (g: DFG)
        ensures
            g@ == Seq::<NodeView>::empty(),
    {
        let g = DFG { graph: Vec::new() };
        assert(g@ =~= Seq::<NodeView>::empty());
        g
    }

    /// The number of nodes.
    pub fn len(&self) -> (n: usize)
        ensures
            n == self@.len(),
    {
        self.graph.len()
    }

    fn insert(&mut self, node: DFGNode) -> (id: DFGNodeID)
        ensures
            final(self)@ == old(self)@.push(node@),
            id.0 == old(self)@.len(),
    {
        let id = DFGNodeID(self.graph.len());
        self.graph.push(node);
        assert(self@ =~= old(self)@.push(node@));
        id
    }

    /// What the node `id` is.
    pub fn kind(&self, id: DFGNodeID) -> (r: Option<DFGNodeKind>)
        ensures
            r == if id.0 < self@.len() {
                Some(self@[id.0 as int].kind)
            } else {
                None
            },
    {
        if id.0 < self.graph.len() {
            Some(self.graph[id.0].kind)
        } else {
            None
        }
    }

    /// The numbers of channels that go into the node `id` and that leave it.
    pub fn channels(&self, id: DFGNodeID) -> (r: Option<(usize, usize)>)
        ensures
            r == if id.0 < self@.len() {
                Some((self@[id.0 as int].ingoing_channels, self@[id.0 as int].outgoing_channels))
            } else {
                None
            },
    {
        if id.0 < self.graph.len() {
            Some((self.graph[id.0].ingoing_channels, self.graph[id.0].outgoing_channels))
        } else {
            None
        }
    }
}

/// The application that a graph is built for: the directory under which the
/// operators keep their state, whether a debug node is wanted at the end of
/// the graph, and whether there is one.
#[derive(Debug)]
pub struct Application {
    state_dir: String,
    debug_node_enabled: bool,
    debug_node: bool,
}

impl Application {
    /// The directory under which the operators keep their state.
    pub closed spec fn spec_state_dir(&self) -> Seq<char> {
        self.state_dir@
    }

    /// Whether a debug node is wanted at the end of the graph.
    pub closed spec fn spec_debug_node_enabled(&self) -> bool {
        self.debug_node_enabled
    }

    /// Whether the application has a debug node.
    pub closed spec fn has_debug_node(&self) -> bool {
        self.debug_node
    }

    /// An application that keeps state under `state_dir`. It has no debug
    /// node yet.
    pub fn new(state_dir: String, debug_node_enabled: bool) -> (app: Application)
        ensures
            app.spec_state_dir() == state_dir@,
            app.spec_debug_node_enabled() == debug_node_enabled,
            !app.has_debug_node(),
    {
        Application { state_dir, debug_node_enabled, debug_node: false }
    }

    /// The directory under which the operators keep their state.
    pub fn state_dir(&self) -> (r: &String)
        ensures
            r@ == self.spec_state_dir(),
    {
        &self.state_dir
    }

    /// Whether a debug node is wanted at the end of the graph.
    pub fn debug_node_enabled(&self) -> (r: bool)
        ensures
            r == self.spec_debug_node_enabled(),
    {
        self.debug_node_enabled
    }

    /// Whether the application has a debug node.
    pub fn debug_node(&self) -> (r: bool)
        ensures
            r == self.has_debug_node(),
    {
        self.debug_node
    }

    /// Gives the application a debug node.
    pub fn create_debug_node(&mut self)
        ensures
            final(self).has_debug_node(),
            final(self).spec_state_dir() == old(self).spec_state_dir(),
            final(self).spec_debug_node_enabled() == old(self).spec_debug_node_enabled(),
    {
        self.debug_node = true;
    }
}

/// What a stream of transformations is built in: the graph so far, the
/// application, and whether the last node is to print to the console.
#[derive(Debug)]
pub struct Context {
    dfg: DFG,
    app: Application,
    console_output: bool,
}

impl Context {
    /// The graph so far.
    pub closed spec fn graph(&self) -> Seq<NodeView> {
        self.dfg@
    }

    /// The application that the graph is built for.
    pub closed spec fn app(&self) -> Application {
        self.app
    }

    /// Whether the last node is to print to the console.
    pub closed spec fn console_output(&self) -> bool {
        self.console_output
    }

    /// A context with an empty graph, without console output.
    pub fn new(app: Application) -> (ctx: Context)
        ensures
            ctx.graph() == Seq::<NodeView>::empty(),
            ctx.app() == app,
            !ctx.console_output(),
    {
        Context { dfg: DFG::new(), app, console_output: false }
    }

    /// Adds a source with `outgoing_channels` channels to the graph.
    pub fn add_source(&mut self, outgoing_channels: usize, channel_kind: ChannelKind) -> (id:
        DFGNodeID)
        ensures
            id.0 == old(self).graph().len(),
            final(self).graph() == old(self).graph().push(
                NodeView {
                    kind: DFGNodeKind::Source,
                    outgoing_channels,
                    ingoing_channels: 0,
                    channel_kind,
                    upstream: Seq::empty(),
                    state_dir: Seq::empty(),
                    state_id: Seq::empty(),
                },
            ),
            final(self).app() == old(self).app(),
            final(self).console_output() == old(self).console_output(),
    {
        let node = DFGNode {
            kind: DFGNodeKind::Source,
            outgoing_channels,
            ingoing_channels: 0,
            channel_kind,
            upstream: Vec::new(),
            state_dir: String::new(),
            state_id: String::new(),
        };
        assert(node@.upstream =~= Seq::<DFGNodeID>::empty());
        self.dfg.insert(node)
    }
}

/// Where the output of a node goes once the application is built.
#[derive(Debug, Clone, Copy, PartialEq, Eq, Structural)]
pub enum Target {
    /// To the instances of the node that follows in the graph.
    Downstream(DFGNodeID),
    /// To the application's debug node.
    DebugNode,
    /// To no node.
    Nothing,
}

/// What building gives a node.
pub ghost struct WiringView {
    pub node: DFGNodeID,
    pub channel_kind: ChannelKind,
    pub target: Target,
    pub in_channels: Seq<NodeID>,
    pub state: Option<(Seq<char>, Seq<char>)>,
}

/// The wiring of one node: how it sends its output on and where to, the
/// identifiers of the channels that come in, and, for an operator, the fresh
/// backend of its state.
#[derive(Debug)]
pub struct Wiring {
    pub node: DFGNodeID,
    pub channel_kind: ChannelKind,
    pub target: Target,
    pub in_channels: Vec<NodeID>,
    pub backend: Option<Backend>,
}

impl View for Wiring {
    type V = WiringView;

    open spec fn view(&self) -> WiringView {
        WiringView {
            node: self.node,
            channel_kind: self.channel_kind,
            target: self.target,
            in_channels: self.in_channels@,
            state: match self.backend {
                Some(b) => Some((b.spec_path(), b.spec_state_id())),
                None => None,
            },
        }
    }
}

/// Whether the node behind node `i` takes the output of node `i`: there is a
/// node behind it, and that node is an operator.
pub open spec fn has_target(graph: Seq<NodeView>, i: int) -> bool {
    i + 1 < graph.len() && graph[i + 1].kind is Node
}

/// Whether an application can be built of the graph: every source is
/// followed by an operator.
pub open spec fn buildable(graph: Seq<NodeView>) -> bool {
    forall|i: int| #[trigger] is_source(graph, i) ==> has_target(graph, i)
}

/// Whether node `i` is a source.
pub open spec fn is_source(graph: Seq<NodeView>, i: int) -> bool {
    0 <= i < graph.len() && graph[i].kind is Source
}

/// Whether node `i` is an operator whose output no node takes.
pub open spec fn is_open_end(graph: Seq<NodeView>, i: int) -> bool {
    0 <= i < graph.len() && graph[i].kind is Node && !has_target(graph, i)
}

/// Whether the graph has an operator whose output no node takes.
pub open spec fn has_open_end(graph: Seq<NodeView>) -> bool {
    exists|i: int| #[trigger] is_open_end(graph, i)
}

/// The identifiers of `n` channels: the numbers from zero on, cut to 32
/// bits.
pub open spec fn channel_ids(n: usize) -> Seq<NodeID> {
    Seq::new(n as nat, |k: int| NodeID { id: (k as usize) as u32 })
}

/// The directory of an operator's state: the application's state directory,
/// a slash, and the identifier of the state.
pub open spec fn state_path(state_dir: Seq<char>, state_id: Seq<char>) -> Seq<char> {
    state_dir + "/"@ + state_id
}

/// The wiring of node `i`. A node sends its output to the node behind it in
/// its own way, where that node takes it. An operator whose output no node
/// takes forwards to the debug node where the application has or wants one;
/// else it prints to the console where the stream was told so, and is mute
/// where not.
pub open spec fn wiring_of(graph: Seq<NodeView>, i: int, console: bool, debug: bool) -> WiringView {
    let node = graph[i];
    match node.kind {
        DFGNodeKind::Source => WiringView {
            node: DFGNodeID(i as usize),
            channel_kind: node.channel_kind,
            target: Target::Downstream(DFGNodeID((i + 1) as usize)),
            in_channels: Seq::empty(),
            state: None,
        },
        DFGNodeKind::Node(_) => WiringView {
            node: DFGNodeID(i as usize),
            channel_kind: if has_target(graph, i) {
                node.channel_kind
            } else if debug {
                ChannelKind::Forward
            } else if console {
                ChannelKind::Console
            } else {
                ChannelKind::Mute
            },
            target: if has_target(graph, i) {
                Target::Downstream(DFGNodeID((i + 1) as usize))
            } else if debug {
                Target::DebugNode
            } else {
                Target::Nothing
            },
            in_channels: channel_ids(node.ingoing_channels),
            state: Some((node.state_dir, node.state_id)),
        },
    }
}

/// An application whose graph has been built: the application, the wiring
/// of each node, the last node of the graph first, and the pipeline of the
/// operators.
pub struct AssembledApplication<P> {
    pub app: Application,
    pub plan: Vec<Wiring>,
    pub pipeline: P,
}

/// A sequence of transformations of a stream, of which the last gives out
/// elements of the type `IN`. `P` is the pipeline of the operators so far.
pub struct Stream<IN, P> {
    marker: PhantomData<IN>,
    prev_dfg_id: DFGNodeID,
    ctx: Context,
    pipeline: P,
}

impl<IN> Stream<IN, FromSource<IN>> {
    /// The stream that the first node of the graph gives out: what comes
    /// from the source, as it is.
    pub fn new(ctx: Context) -> (s: Self)
        ensures
            s.graph() == ctx.graph(),
            s.last_node() == DFGNodeID(0),
            s.app() == ctx.app(),
            s.console_output() == ctx.console_output(),
            s.pipeline().ready(),
    {
        Stream {
            marker: PhantomData,
            prev_dfg_id: DFGNodeID(0),
            ctx,
            pipeline: FromSource { marker: PhantomData },
        }
    }
}

impl<IN, P: Pipeline<Item = IN>> Stream<IN, P> {
    /// The graph so far.
    pub closed spec fn graph(&self) -> Seq<NodeView> {
        self.ctx.graph()
    }

    /// The node that gives out this stream.
    pub closed spec fn last_node(&self) -> DFGNodeID {
        self.prev_dfg_id
    }

    /// The application that the stream is built for.
    pub closed spec fn app(&self) -> Application {
        self.ctx.app()
    }

    /// Whether the last node is to print to the console.
    pub closed spec fn console_output(&self) -> bool {
        self.ctx.console_output()
    }

    /// The operators so far, from the source on.
    pub closed spec fn pipeline(&self) -> P {
        self.pipeline
    }

    /// Whether the node that gives out the stream is in the graph.
    pub open spec fn wf(&self) -> bool {
        self.last_node().0 < self.graph().len()
    }

    /// The identifier of the node that gives out this stream.
    pub fn last_id(&self) -> (id: DFGNodeID)
        ensures
            id == self.last_node(),
    {
        self.prev_dfg_id
    }

    /// The number of nodes in the graph so far.
    pub fn num_nodes(&self) -> (n: usize)
        ensures
            n == self.graph().len(),
    {
        self.ctx.dfg.len()
    }

    /// What the stream carries for one element of the source: the element
    /// goes through the operators so far, one after the other.
    pub fn feed(&self, element: ArconElement<P::Source>) -> (out: Vec<ArconElement<IN>>)
        requires
            self.pipeline().ready(),
        ensures
            self.pipeline().carries(element, out@),
    {
        self.pipeline.feed(element)
    }

    /// Adds an operator to the graph, behind the node that gives out this
    /// stream, and to the pipeline, behind the operators so far. The node
    /// runs the number of instances that its configuration fixes, takes as
    /// many channels as the node before it sends, forwards its output, and
    /// keeps its state under the application's state directory, in a
    /// directory named by the state's identifier. The new stream carries what
    /// the operator gives out for the elements that this stream carries.
    pub fn operator<OP: Operator<IN = IN>>(self, builder: OperatorBuilder<OP>) -> (s: Stream<
        OP::OUT,
        Then<P, OP>,
    >)
        requires
            self.wf(),
            builder.conf.parallelism_strategy is Static,
        ensures
            s.wf(),
            s.last_node() == DFGNodeID(self.graph().len() as usize),
            s.graph() == self.graph().push(
                NodeView {
                    kind: DFGNodeKind::Node(builder.kind),
                    outgoing_channels: builder.conf.parallelism_strategy->Static_0,
                    ingoing_channels: self.graph()[self.last_node().0 as int].outgoing_channels,
                    channel_kind: ChannelKind::Forward,
                    upstream: seq![self.last_node()],
                    state_dir: state_path(self.app().spec_state_dir(), builder.state_id@),
                    state_id: builder.state_id@,
                },
            ),
            s.app() == self.app(),
            s.console_output() == self.console_output(),
            s.pipeline().upstream == self.pipeline(),
            s.pipeline().operator == builder.operator,
            self.pipeline().ready() && builder.operator.ready() ==> s.pipeline().ready(),
    {
        let mut ctx = self.ctx;
        let mut state_dir = ctx.app.state_dir.clone();
        state_dir.append("/");
        state_dir.append(builder.state_id.as_str());
        let outgoing_channels = match builder.conf.parallelism_strategy {
            ParallelismStrategy::Static(num) => num,
            ParallelismStrategy::Managed => 0,
        };
        assert(ctx.dfg@[self.prev_dfg_id.0 as int] == ctx.dfg.graph@[self.prev_dfg_id.0 as int]@);
        let incoming_channels = ctx.dfg.graph[self.prev_dfg_id.0].outgoing_channels;
        let mut upstream: Vec<DFGNodeID> = Vec::new();
        upstream.push(self.prev_dfg_id);
        assert(upstream@ =~= seq![self.prev_dfg_id]);
        let node = DFGNode {
            kind: DFGNodeKind::Node(builder.kind),
            outgoing_channels,
            ingoing_channels: incoming_channels,
            channel_kind: ChannelKind::Forward,
            upstream,
            state_dir,
            state_id: builder.state_id,
        };
        let next_dfg_id = ctx.dfg.insert(node);
        Stream {
            marker: PhantomData,
            prev_dfg_id: next_dfg_id,
            ctx,
            pipeline: Then { upstream: self.pipeline, operator: builder.operator },
        }
    }

    /// Adds a map operator without state, with the default configuration:
    /// the new stream carries, for each element that this stream carries,
    /// what `f` makes of it, in the same order.
    pub fn map<F: Fn(IN) -> OUT, OUT>(self, f: F) -> (s: Stream<OUT, Then<P, MapEach<IN, OUT, F>>>)
        requires
            self.wf(),
        ensures
            s.wf(),
            added_stateless(
                self.graph(),
                self.last_node(),
                self.app(),
                OperatorKind::MapEach,
                s.graph(),
            ),
            s.last_node() == DFGNodeID(self.graph().len() as usize),
            s.app() == self.app(),
            s.console_output() == self.console_output(),
            s.pipeline().upstream == self.pipeline(),
            s.pipeline().operator.f == f,
            self.pipeline().ready() && (forall|x: IN| f.requires((x,))) ==> s.pipeline().ready(),
    {
        self.operator(OperatorBuilder::stateless(OperatorKind::MapEach, MapEach::new(f)))
    }

    /// Adds an operator without state that changes each element, with the
    /// default configuration: the new stream carries each element that this
    /// stream carries as `f` has changed it, in the same order.
    pub fn map_in_place<F: Fn(IN) -> IN>(self, f: F) -> (s: Stream<IN, Then<P, MapInPlace<IN, F>>>)
        requires
            self.wf(),
        ensures
            s.wf(),
            added_stateless(
                self.graph(),
                self.last_node(),
                self.app(),
                OperatorKind::MapInPlace,
                s.graph(),
            ),
            s.last_node() == DFGNodeID(self.graph().len() as usize),
            s.app() == self.app(),
            s.console_output() == self.console_output(),
            s.pipeline().upstream == self.pipeline(),
            s.pipeline().operator.f == f,
            self.pipeline().ready() && (forall|x: IN| f.requires((x,))) ==> s.pipeline().ready(),
    {
        self.operator(OperatorBuilder::stateless(OperatorKind::MapInPlace, MapInPlace::new(f)))
    }

    /// Adds a filter operator without state, with the default configuration:
    /// the new stream carries the elements that this stream carries and of
    /// which `f` says yes, unchanged and in the same order.
    pub fn filter<F: Fn(&IN) -> bool>(self, f: F) -> (s: Stream<IN, Then<P, Filter<IN, F>>>)
        requires
            self.wf(),
        ensures
            s.wf(),
            added_stateless(
                self.graph(),
                self.last_node(),
                self.app(),
                OperatorKind::Filter,
                s.graph(),
            ),
            s.last_node() == DFGNodeID(self.graph().len() as usize),
            s.app() == self.app(),
            s.console_output() == self.console_output(),
            s.pipeline().upstream == self.pipeline(),
            s.pipeline().operator.f == f,
            self.pipeline().ready() && (forall|x: &IN| f.requires((x,))) ==> s.pipeline().ready(),
    {
        self.operator(OperatorBuilder::stateless(OperatorKind::Filter, Filter::new(f)))
    }

    /// Adds a flatmap operator without state, with the default
    /// configuration: the new stream carries, for each element that this
    /// stream carries, the items that `f` makes of it, in their order.
    pub fn flatmap<F: Fn(IN) -> Vec<OUT>, OUT>(self, f: F) -> (s: Stream<
        OUT,
        Then<P, FlatMap<IN, OUT, F>>,
    >)
        requires
            self.wf(),
        ensures
            s.wf(),
            added_stateless(
                self.graph(),
                self.last_node(),
                self.app(),
                OperatorKind::FlatMap,
                s.graph(),
            ),
            s.last_node() == DFGNodeID(self.graph().len() as usize),
            s.app() == self.app(),
            s.console_output() == self.console_output(),
            s.pipeline().upstream == self.pipeline(),
            s.pipeline().operator.f == f,
            self.pipeline().ready() && (forall|x: IN| f.requires((x,))) ==> s.pipeline().ready(),
    {
        self.operator(OperatorBuilder::stateless(OperatorKind::FlatMap, FlatMap::new(f)))
    }

    /// Makes the last node of the graph print its output to the console. A
    /// debug node of the application comes before that. The stream carries
    /// what it carried.
    pub fn to_console(self) -> (s: Stream<IN, P>)
        ensures
            s.console_output(),
            s.graph() == self.graph(),
            s.last_node() == self.last_node(),
            s.app() == self.app(),
            s.pipeline() == self.pipeline(),
    {
        let mut ctx = self.ctx;
        ctx.console_output = true;
        Stream { marker: PhantomData, prev_dfg_id: self.prev_dfg_id, ctx, pipeline: self.pipeline }
    }

    /// Builds the application: gives every node of the graph its wiring, the
    /// last node first. An operator gets a fresh backend for its state. The
    /// application gets a debug node where it wants one and an operator's
    /// output is taken by no node. The application runs the stream's
    /// pipeline.
    pub fn build(self) -> (built: AssembledApplication<P>)
        requires
            buildable(self.graph()),
        ensures
            built.pipeline == self.pipeline(),
            built.plan@.len() == self.graph().len(),
            forall|p: int|
                0 <= p < built.plan@.len() ==> (#[trigger] built.plan@[p])@ == wiring_of(
                    self.graph(),
                    self.graph().len() - 1 - p,
                    self.console_output(),
                    self.app().has_debug_node() || self.app().spec_debug_node_enabled(),
                ),
            forall|p: int|
                0 <= p < built.plan@.len() ==> match (#[trigger] built.plan@[p]).backend {
                    Some(b) => b.wf() && b@ == Map::<(Seq<u8>, Seq<u8>), Seq<u8>>::empty(),
                    None => true,
                },
            built.app.spec_state_dir() == self.app().spec_state_dir(),
            built.app.spec_debug_node_enabled() == self.app().spec_debug_node_enabled(),
            built.app.has_debug_node() == (self.app().has_debug_node() || (
            self.app().spec_debug_node_enabled() && has_open_end(self.graph()))),
    {
        let ctx = self.ctx;
        let mut app = ctx.app;
        let console = ctx.console_output;
        let dfg = ctx.dfg;
        let ghost graph = dfg@;
        let debug = app.debug_node || app.debug_node_enabled;
        let n = dfg.graph.len();
        let mut plan: Vec<Wiring> = Vec::new();
        let mut i: usize = n;
        let mut target_ready = false;
        let mut open_end = false;
        while i > 0
            invariant
                i <= n == dfg.graph@.len(),
                graph == dfg@,
                buildable(graph),
                target_ready == (i < n && graph[i as int].kind is Node),
                plan@.len() == n - i,
                planned(graph, plan@, console, debug),
                open_end == open_end_from(graph, i as int),
            decreases i,
        {
            i -= 1;
            let node = &dfg.graph[i];
            assert(graph[i as int] == node@);
            assert(node@.kind is Source ==> is_source(graph, i as int));
            let wiring = wire(node, i, target_ready, console, debug, Ghost(graph));
            let ghost before = plan@;
            match node.kind {
                DFGNodeKind::Source => {
                    target_ready = false;
                },
                DFGNodeKind::Node(_) => {
                    if !target_ready {
                        open_end = true;
                    }
                    target_ready = true;
                },
            }
            plan.push(wiring);
            proof {
                lemma_plan_push(graph, before, wiring, console, debug);
                lemma_open_end_step(graph, i as int);
            }
        }
        if open_end && app.debug_node_enabled {
            app.create_debug_node();
        }
        proof {
            reveal(planned_at);
            assert forall|p: int| 0 <= p < plan@.len() implies (#[trigger] plan@[p])@ == wiring_of(
                graph,
                graph.len() - 1 - p,
                console,
                debug,
            ) by {
                assert(planned_at(graph, plan@[p], p, console, debug));
            }
            assert forall|p: int| 0 <= p < plan@.len() implies match (#[trigger] plan@[p]).backend {
                Some(b) => b.wf() && b@ == Map::<(Seq<u8>, Seq<u8>), Seq<u8>>::empty(),
                None => true,
            } by {
                assert(planned_at(graph, plan@[p], p, console, debug));
            }
        }
        AssembledApplication { app, plan, pipeline: self.pipeline }
    }
}

/// Whether `wiring` is the wiring of the node that is built at place `p` of
/// the plan, with a fresh backend where it has one.
#[verifier::opaque]
pub open spec fn planned_at(
    graph: Seq<NodeView>,
    wiring: Wiring,
    p: int,
    console: bool,
    debug: bool,
) -> bool {
    &&& wiring@ == wiring_of(graph, graph.len() - 1 - p, console, debug)
    &&& match wiring.backend {
        Some(b) => b.wf() && b@ == Map::<(Seq<u8>, Seq<u8>), Seq<u8>>::empty(),
        None => true,
    }
}

/// A plan with the wiring of the next node at its end is a plan.
pub proof fn lemma_plan_push(
    graph: Seq<NodeView>,
    plan: Seq<Wiring>,
    wiring: Wiring,
    console: bool,
    debug: bool,
)
    requires
        planned(graph, plan, console, debug),
        planned_at(graph, wiring, plan.len() as int, console, debug),
    ensures
        planned(graph, plan.push(wiring), console, debug),
{
    let after = plan.push(wiring);
    assert forall|p: int| 0 <= p < after.len() implies planned_at(
        graph,
        #[trigger] after[p],
        p,
        console,
        debug,
    ) by {
        if p < plan.len() {
            assert(after[p] == plan[p]);
        }
    }
}

/// Whether every wiring of `plan` is that of its node.
pub open spec fn planned(graph: Seq<NodeView>, plan: Seq<Wiring>, console: bool, debug: bool) -> bool {
    forall|p: int| 0 <= p < plan.len() ==> planned_at(graph, #[trigger] plan[p], p, console, debug)
}

/// Whether the graph has, from node `i` on, an operator whose output no node
/// takes.
pub open spec fn open_end_from(graph: Seq<NodeView>, i: int) -> bool {
    exists|j: int| i <= j && #[trigger] is_open_end(graph, j)
}

/// From node `i` on there is an open end where node `i` is one or there is
/// one behind it.
pub proof fn lemma_open_end_step(graph: Seq<NodeView>, i: int)
    requires
        0 <= i < graph.len(),
    ensures
        open_end_from(graph, i) == (is_open_end(graph, i) || open_end_from(graph, i + 1)),
        open_end_from(graph, 0) == has_open_end(graph),
        !open_end_from(graph, graph.len() as int),
{
    if open_end_from(graph, i) {
        let j = choose|j: int| i <= j && #[trigger] is_open_end(graph, j);
        if j > i {
            assert(i + 1 <= j && is_open_end(graph, j));
        }
    }
    if open_end_from(graph, i + 1) {
        let j = choose|j: int| i + 1 <= j && #[trigger] is_open_end(graph, j);
        assert(i <= j && is_open_end(graph, j));
    }
    if is_open_end(graph, i) {
        assert(i <= i && is_open_end(graph, i));
    }
    if has_open_end(graph) {
        let j = choose|j: int| #[trigger] is_open_end(graph, j);
        assert(0 <= j && is_open_end(graph, j));
    }
    if open_end_from(graph, 0) {
        let j = choose|j: int| 0 <= j && #[trigger] is_open_end(graph, j);
        assert(is_open_end(graph, j));
    }
}

/// Makes the identifiers of `n` channels.
pub fn make_channel_ids(n: usize) -> (ids: Vec<NodeID>)
    ensures
        ids@ == channel_ids(n),
{
    let mut ids: Vec<NodeID> = Vec::new();
    let mut k: usize = 0;
    while k < n
        invariant
            k <= n,
            ids@.len() == k,
            forall|c: int| 0 <= c < k ==> (#[trigger] ids@[c]).id == (c as usize) as u32,
        decreases n - k,
    {
        ids.push(NodeID::new(#[verifier::truncate] (k as u32)));
        k += 1;
    }
    assert(ids@ =~= channel_ids(n));
    ids
}

fn wire(
    node: &DFGNode,
    i: usize,
    target_ready: bool,
    console: bool,
    debug: bool,
    Ghost(graph): Ghost<Seq<NodeView>>,
) -> (wiring: Wiring)
    requires
        i < graph.len() <= usize::MAX,
        graph[i as int] == node@,
        target_ready == has_target(graph, i as int),
        node@.kind is Source ==> target_ready,
    ensures
        planned_at(graph, wiring, graph.len() - 1 - i, console, debug),
{
    let wiring = match node.kind {
        DFGNodeKind::Source => Wiring {
            node: DFGNodeID(i),
            channel_kind: node.channel_kind,
            target: Target::Downstream(DFGNodeID(i + 1)),
            in_channels: Vec::new(),
            backend: None,
        },
        DFGNodeKind::Node(_) => {
            let (channel_kind, target) = if target_ready {
                (node.channel_kind, Target::Downstream(DFGNodeID(i + 1)))
            } else if debug {
                (ChannelKind::Forward, Target::DebugNode)
            } else if console {
                (ChannelKind::Console, Target::Nothing)
            } else {
                (ChannelKind::Mute, Target::Nothing)
            };
            let in_channels = make_channel_ids(node.ingoing_channels);
            let backend = Backend::create(node.state_dir.clone(), node.state_id.clone());
            Wiring { node: DFGNodeID(i), channel_kind, target, in_channels, backend: Some(backend) }
        },
    };
    proof {
        reveal(planned_at);
        let want = wiring_of(graph, i as int, console, debug);
        assert(wiring@.in_channels =~= want.in_channels);
        assert(wiring@ == want);
    }
    wiring
}

/// Whether `after` is `graph` with an operator of the kind `kind` added
/// behind the node `prev`: without state, with the default configuration.
pub open spec fn added_stateless(
    graph: Seq<NodeView>,
    prev: DFGNodeID,
    app: Application,
    kind: OperatorKind,
    after: Seq<NodeView>,
) -> bool {
    after == graph.push(
        NodeView {
            kind: DFGNodeKind::Node(kind),
            outgoing_channels: 1,
            ingoing_channels: graph[prev.0 as int].outgoing_channels,
            channel_kind: ChannelKind::Forward,
            upstream: seq![prev],
            state_dir: state_path(app.spec_state_dir(), "!"@),
            state_id: "!"@,
        },
    )
}

} // verus!
