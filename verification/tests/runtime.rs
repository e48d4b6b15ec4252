use arcon_core::backend::Backend;
use arcon_core::dataflow::{
    make_channel_ids, Application, ChannelKind, Context, DFGNodeID, DFGNodeKind, FromSource,
    NodeID, OperatorBuilder, OperatorConf, OperatorKind, ParallelismStrategy, Pipeline, Stream,
    Target,
};
use arcon_core::function::{Filter, FlatMap, MapEach, MapInPlace, Operator};
use arcon_core::error::{arcon_err, Error, ErrorKind, SnapshotError, StateError, BackendError, IndexError};
use arcon_core::index::{ArconState, EmptyState, IndexOps, Timer, ValueIndex};
use arcon_core::metrics::{
    bytes_read_name, bytes_written_name, make_metric_name, EpochCounter, ErrorCounter,
    IncomingMessageRate, InboundThroughput, NodeMetrics, SourceMetrics, WatermarkCounter,
};
use arcon_core::operator::{ArconElement, CountState, CustomEvent, MyOperator, TimerOperator};
use arcon_core::sink::{file_line, socket_line, socket_payload};
use arcon_core::snapshot::Snapshot;

fn source_stream(debug: bool) -> Stream<u64, FromSource<u64>> {
    let app = Application::new(String::from("/tmp/arcon"), debug);
    let mut ctx = Context::new(app);
    ctx.add_source(2, ChannelKind::Forward);
    Stream::new(ctx)
}

#[test]
fn errors_carry_their_message() {
    let e = Error::new_arcon(String::from("boom"));
    assert!(matches!(e.kind(), ErrorKind::ArconError(m) if m == "boom"));
    assert_eq!(e.describe(), "boom");
    let e = Error::new(ErrorKind::ArconError(String::from("bang")));
    assert!(matches!(e.kind(), ErrorKind::ArconError(m) if m == "bang"));
    assert_eq!(e.describe(), "bang");
    let r: Result<u8, Error> = arcon_err(String::from("oops"));
    assert_eq!(r.unwrap_err().describe(), "oops");
}

#[test]
fn state_and_snapshot_errors_turn_into_runtime_errors() {
    assert_eq!(
        StateError::Backend(BackendError::Encoding).into_error().describe(),
        "stored bytes do not decode"
    );
    assert_eq!(StateError::Index(IndexError::KeyNotSet).into_error().describe(), "no key is set");
    assert_eq!(SnapshotError::Missing.into_error().describe(), "the snapshot holds no image");
    assert_eq!(SnapshotError::Corrupt.into_error().describe(), "the snapshot is corrupt");
    assert_eq!(
        SnapshotError::WrongState.into_error().describe(),
        "the snapshot was taken of another state"
    );
}

#[test]
fn the_empty_state_keeps_nothing() {
    let mut b = Backend::create(String::from("/tmp"), String::from("!"));
    let mut s = EmptyState;
    assert!(ArconState::persist(&mut s, &mut b).is_ok());
    ArconState::set_key(&mut s, &mut b, 5);
    assert!(IndexOps::persist(&mut s, &mut b).is_ok());
    IndexOps::set_key(&mut s, &mut b, 5);
    assert!(matches!(s.table(&b), Ok(None)));
    assert_eq!(s.tables(&b).len(), 0);
    assert_eq!(EmptyState::table_ids().len(), 0);
    assert!(matches!(s.get_table(&b, "any"), Ok(None)));
    assert!(!EmptyState::has_tables());
    assert_eq!(EmptyState::state_id(), "!");
    assert_eq!(b.len(), 0);
}

#[test]
fn the_empty_state_is_restored_from_its_snapshot() {
    let b = Backend::create(String::from("/tmp"), String::from("!"));
    let snapshot = b.checkpoint(String::from("/snap"));
    let (_, restored) = EmptyState::restore(&snapshot, |_: &Backend| EmptyState).unwrap();
    assert_eq!(restored.path(), "/snap");
    assert_eq!(restored.state_id(), "!");
    assert_eq!(restored.len(), 0);
}

#[test]
fn a_state_is_not_restored_from_a_bad_snapshot() {
    let missing = Snapshot::new(String::from("/snap"), Vec::new());
    let r = EmptyState::restore(&missing, |_: &Backend| EmptyState);
    assert_eq!(r.err().unwrap().describe(), "the snapshot holds no image");
    let corrupt = Snapshot::new(String::from("/snap"), vec![1, 2, 3, 4, 5]);
    let r = EmptyState::restore(&corrupt, |_: &Backend| EmptyState);
    assert_eq!(r.err().unwrap().describe(), "the snapshot is corrupt");
    let other = Backend::create(String::from("/tmp"), String::from("op")).checkpoint(String::from("/snap"));
    let r = EmptyState::restore(&other, |_: &Backend| EmptyState);
    assert_eq!(r.err().unwrap().describe(), "the snapshot was taken of another state");
}

#[test]
fn a_state_of_one_index_survives_persist_checkpoint_restore() {
    let mut b = Backend::create(String::from("/tmp"), CountState::state_id());
    let mut state = CountState::new();
    assert_eq!(state.tables(&b).len(), 0);
    state.set_key(&mut b, 1);
    state.count.put(&mut b, 5).unwrap();
    assert_eq!(b.len(), 0);
    state.persist(&mut b).unwrap();
    assert_eq!(b.len(), 1);
    let before = state.get_table(&b, "count").unwrap().unwrap();
    let snapshot = b.checkpoint(String::from("/snap"));
    let (mut again, mut restored) =
        CountState::restore(&snapshot, |_: &Backend| CountState::new()).unwrap();
    again.set_key(&mut restored, 1);
    assert_eq!(again.count.get(&restored), Ok(Some(5)));
    let after = again.get_table(&restored, "count").unwrap().unwrap();
    assert_eq!(after.column(0), before.column(0));
    assert_eq!(after.column(0).unwrap(), &vec![vec![5u8, 0, 0, 0, 0, 0, 0, 0]]);
    assert_eq!(after.name(), before.name());
    assert_eq!(after.name(), &b"count_state/count".to_vec());
    assert_eq!(again.tables(&restored).len(), 1);
    assert!(again.get_table(&restored, "other").unwrap().is_none());
    assert_eq!(CountState::table_ids(), vec![String::from("count")]);
    assert!(CountState::has_tables());
    again.set_key(&mut restored, 2);
    assert_eq!(again.count.get(&restored), Ok(None));
}

#[test]
fn metric_names_are_node_underscore_measure() {
    assert_eq!(make_metric_name("node", "x"), "node_x");
    assert_eq!(make_metric_name("", ""), "_");
    assert_eq!(bytes_written_name("h"), "h_bytes_written");
    assert_eq!(bytes_read_name("h"), "h_bytes_read");
    let m = NodeMetrics::new("n1");
    assert_eq!(m.inbound_throughput.name(), "n1_inbound_throughput");
    assert_eq!(m.epoch_counter.name(), "n1_epoch_counter");
    assert_eq!(m.watermark_counter.name(), "n1_watermark_counter");
    let s = SourceMetrics::new("src");
    assert_eq!(s.incoming_message_rate.name(), "src_incoming_message_rate");
    assert_eq!(s.error_counter.name(), "src_error_counter");
}

#[test]
fn metrics_start_at_zero_and_add_up() {
    let mut m = NodeMetrics::new("n1");
    assert_eq!(m.inbound_throughput.value(), 0);
    assert_eq!(m.epoch_counter.value(), 0);
    assert_eq!(m.watermark_counter.value(), 0);
    m.inbound_throughput.update_value(3);
    m.inbound_throughput.update_value(4);
    m.epoch_counter.update_value(1);
    m.watermark_counter.update_value(u64::MAX);
    assert_eq!(m.inbound_throughput.value(), 7);
    assert_eq!(m.epoch_counter.value(), 1);
    assert_eq!(m.watermark_counter.value(), u64::MAX);
    let mut s = SourceMetrics::new("src");
    s.incoming_message_rate.update_value(10);
    s.error_counter.update_value(2);
    s.error_counter.update_value(0);
    assert_eq!(s.incoming_message_rate.value(), 10);
    assert_eq!(s.error_counter.value(), 2);
    assert_eq!(InboundThroughput::new("a").value(), 0);
    assert_eq!(EpochCounter::new("a").name(), "a_epoch_counter");
    assert_eq!(WatermarkCounter::new("a").value(), 0);
    assert_eq!(IncomingMessageRate::new("a").value(), 0);
    assert_eq!(ErrorCounter::new("a").name(), "a_error_counter");
}

#[test]
fn sink_lines_end_with_a_line_feed() {
    assert_eq!(file_line(String::from("15")), "15\n");
    assert_eq!(file_line(String::new()), "\n");
    assert_eq!(socket_line(Some(String::from("{\"id\":1}")), String::from("dbg")), "{\"id\":1}\n");
    assert_eq!(socket_line(None, String::from("dbg")), "dbg\n");
}

#[test]
fn the_datagram_holds_the_bytes_of_the_line() {
    let payload = socket_payload(Some(String::from("10")), String::from("ten"));
    assert_eq!(&payload[..], b"10\n");
    let payload = socket_payload(None, String::from("ten"));
    assert_eq!(&payload[..], b"ten\n");
    let payload = socket_payload(Some(String::from("\u{e9}")), String::new());
    assert_eq!(&payload[..], &[0xc3, 0xa9, b'\n']);
}

#[test]
fn my_operator_wraps_the_number() {
    let mut op = MyOperator;
    assert!(op.on_start().is_ok());
    let out = op.wrap(ArconElement { data: 7, timestamp: Some(3) });
    assert_eq!(out.data, CustomEvent { id: 7 });
    assert_eq!(out.timestamp, Some(3));
    let out = op.handle_element(ArconElement { data: 0, timestamp: None });
    assert_eq!(out.len(), 1);
    assert_eq!(out[0].data.id, 0);
    assert_eq!(out[0].timestamp, None);
}

#[test]
fn my_operator_stands_in_a_stream() {
    let s = source_stream(false).operator(OperatorBuilder {
        operator: MyOperator,
        kind: OperatorKind::Custom,
        state_id: String::from("my_operator"),
        conf: OperatorConf::new(),
    });
    assert_eq!(
        carried(&s, vec![4, 2]),
        vec![CustomEvent { id: 4 }, CustomEvent { id: 2 }]
    );
}

#[test]
fn timer_operator_schedules_a_thousand_later() {
    let mut op = TimerOperator;
    let mut timer: Timer<u64> = Timer::new("t");
    timer.advance_to(500);
    let out = op.handle_element(
        ArconElement { data: CustomEvent { id: 9 }, timestamp: Some(1) },
        4,
        &mut timer,
    );
    assert_eq!(out.data.id, 9);
    assert_eq!(out.timestamp, Some(1));
    assert_eq!(timer.len(), 1);
    assert_eq!(timer.advance_to(1499).len(), 0);
    let events = timer.advance_to(1500);
    assert_eq!(events.len(), 1);
    assert_eq!((events[0].time, events[0].key, events[0].payload), (1500, 4, 9));
    assert!(op.handle_timeout(9).is_none());
}

#[test]
fn channel_ids_count_from_zero() {
    assert_eq!(
        make_channel_ids(3),
        vec![NodeID::new(0), NodeID::new(1), NodeID::new(2)]
    );
    assert_eq!(make_channel_ids(0), vec![]);
}

#[test]
fn operators_are_added_behind_the_last_node() {
    let s = source_stream(false);
    assert_eq!(s.num_nodes(), 1);
    assert_eq!(s.last_id(), DFGNodeID(0));
    let s = s.map(|x: u64| x + 10);
    assert_eq!(s.last_id(), DFGNodeID(1));
    let s = s.filter(|x: &u64| *x < 50).map_in_place(|x: u64| x * 2);
    let s = s.flatmap(|x: u64| vec![x as u32, 0u32]);
    assert_eq!(s.num_nodes(), 5);
    assert_eq!(s.last_id(), DFGNodeID(4));
    let s = s.operator(OperatorBuilder {
        operator: MapEach::new(|x: u32| x as u8),
        kind: OperatorKind::Custom,
        state_id: String::from("mine"),
        conf: OperatorConf { parallelism_strategy: ParallelismStrategy::Static(4) },
    });
    assert_eq!(s.last_id(), DFGNodeID(5));
    let built = s.build();
    assert_eq!(built.plan.len(), 6);
    // the last node first
    let last = &built.plan[0];
    assert_eq!(last.node, DFGNodeID(5));
    assert_eq!(last.channel_kind, ChannelKind::Mute);
    assert_eq!(last.target, Target::Nothing);
    assert_eq!(last.in_channels, vec![NodeID::new(0)]);
    let backend = last.backend.as_ref().unwrap();
    assert_eq!(backend.path(), "/tmp/arcon/mine");
    assert_eq!(backend.state_id(), "mine");
    assert_eq!(backend.len(), 0);
    let before_last = &built.plan[1];
    assert_eq!(before_last.node, DFGNodeID(4));
    assert_eq!(before_last.channel_kind, ChannelKind::Forward);
    assert_eq!(before_last.target, Target::Downstream(DFGNodeID(5)));
    assert_eq!(before_last.backend.as_ref().unwrap().path(), "/tmp/arcon/!");
    let first_operator = &built.plan[4];
    assert_eq!(first_operator.node, DFGNodeID(1));
    assert_eq!(first_operator.in_channels, vec![NodeID::new(0), NodeID::new(1)]);
    let source = &built.plan[5];
    assert_eq!(source.node, DFGNodeID(0));
    assert_eq!(source.target, Target::Downstream(DFGNodeID(1)));
    assert_eq!(source.channel_kind, ChannelKind::Forward);
    assert!(source.backend.is_none());
    assert_eq!(source.in_channels, vec![]);
    assert!(!built.app.debug_node());
    // 7 becomes 17, passes the filter, is doubled, gives two items, each cut to a byte
    let out = built.pipeline.feed(ArconElement { data: 7, timestamp: Some(1) });
    assert_eq!(data_of(out), vec![(34u8, Some(1)), (0u8, Some(1))]);
    // 45 becomes 55 and does not pass the filter
    let out = built.pipeline.feed(ArconElement { data: 45, timestamp: None });
    assert_eq!(out.len(), 0);
}

fn data_of<T>(elements: Vec<ArconElement<T>>) -> Vec<(T, Option<u64>)> {
    let mut out = Vec::new();
    for e in elements {
        out.push((e.data, e.timestamp));
    }
    out
}

fn carried<P: Pipeline<Source = u64>>(s: &Stream<P::Item, P>, inputs: Vec<u64>) -> Vec<P::Item> {
    let mut out = Vec::new();
    for x in inputs {
        for e in s.feed(ArconElement { data: x, timestamp: Some(x) }) {
            assert_eq!(e.timestamp, Some(x));
            out.push(e.data);
        }
    }
    out
}

#[test]
fn a_stream_from_the_source_carries_the_elements_as_they_are() {
    let s = source_stream(false);
    assert_eq!(carried(&s, vec![3, 1, 2]), vec![3, 1, 2]);
}

#[test]
fn map_carries_what_the_function_makes_of_each_element() {
    let s = source_stream(false).map(|x: u64| x + 10);
    assert_eq!(carried(&s, vec![0, 1, 2, 99]), vec![10, 11, 12, 109]);
    let words = source_stream(false).map(|x: u64| format!("{}", x));
    assert_eq!(carried(&words, vec![4, 5]), vec![String::from("4"), String::from("5")]);
}

#[test]
fn map_in_place_carries_each_element_changed_once() {
    let s = source_stream(false).map_in_place(|x: u64| x + 10);
    assert_eq!(carried(&s, vec![0, 1, 2]), vec![10, 11, 12]);
}

#[test]
fn filter_carries_the_elements_of_which_the_function_says_yes() {
    let s = source_stream(false).filter(|x: &u64| x < &50);
    let inputs: Vec<u64> = (0..100).collect();
    let expected: Vec<u64> = (0..50).collect();
    assert_eq!(carried(&s, inputs), expected);
    let none = source_stream(false).filter(|_: &u64| false);
    assert_eq!(carried(&none, vec![1, 2, 3]), Vec::<u64>::new());
}

#[test]
fn flatmap_carries_the_items_of_each_element_in_order() {
    let s = source_stream(false).flatmap(|x: u64| (0..x).collect::<Vec<u64>>());
    assert_eq!(carried(&s, vec![3, 0, 2]), vec![0, 1, 2, 0, 1]);
}

#[test]
fn operators_give_out_what_follows_from_one_element() {
    let element = |data: u64| ArconElement { data, timestamp: Some(9) };
    assert_eq!(data_of(MapEach::new(|x: u64| x + 1).handle_element(element(1))), vec![(2, Some(9))]);
    assert_eq!(
        data_of(MapInPlace::new(|x: u64| x * 3).handle_element(element(2))),
        vec![(6, Some(9))]
    );
    assert_eq!(data_of(Filter::new(|x: &u64| *x > 1).handle_element(element(2))), vec![(2, Some(9))]);
    assert_eq!(data_of(Filter::new(|x: &u64| *x > 1).handle_element(element(1))), vec![]);
    assert_eq!(
        data_of(FlatMap::new(|x: u64| vec![x, x + 1, x + 2]).handle_element(element(5))),
        vec![(5, Some(9)), (6, Some(9)), (7, Some(9))]
    );
    assert_eq!(data_of(FlatMap::new(|_: u64| Vec::<u8>::new()).handle_element(element(5))), vec![]);
    assert_eq!(
        arcon_core::function::reversed(vec![1, 2, 3]),
        vec![3, 2, 1]
    );
}

#[test]
fn the_last_node_prints_to_the_console_when_told() {
    let s = source_stream(false).map(|x: u64| x);
    let built = s.to_console().build();
    assert_eq!(built.plan[0].channel_kind, ChannelKind::Console);
    assert_eq!(built.plan[0].target, Target::Nothing);
    assert_eq!(built.plan[1].channel_kind, ChannelKind::Forward);
}

#[test]
fn a_debug_node_comes_before_the_console() {
    let s = source_stream(true).map(|x: u64| x);
    let built = s.to_console().build();
    assert_eq!(built.plan[0].channel_kind, ChannelKind::Forward);
    assert_eq!(built.plan[0].target, Target::DebugNode);
    assert!(built.app.debug_node());
    assert!(built.app.debug_node_enabled());
    assert_eq!(built.app.state_dir(), "/tmp/arcon");
}

#[test]
fn the_graph_says_what_its_nodes_are() {
    let app = Application::new(String::from("/d"), false);
    let mut ctx = Context::new(app);
    let id = ctx.add_source(3, ChannelKind::Forward);
    assert_eq!(id, DFGNodeID(0));
    let s: Stream<u64, _> = Stream::new(ctx);
    let s = s.filter(|_: &u64| true);
    let built = s.build();
    assert_eq!(built.plan[0].in_channels.len(), 3);
    let mut g = arcon_core::dataflow::DFG::new();
    assert_eq!(g.len(), 0);
    assert_eq!(g.kind(DFGNodeID(0)), None);
    assert_eq!(g.channels(DFGNodeID(0)), None);
    let _ = &mut g;
    assert_eq!(DFGNodeKind::Node(OperatorKind::Filter), DFGNodeKind::Node(OperatorKind::Filter));
    assert_eq!(OperatorConf::new().parallelism_strategy, ParallelismStrategy::Static(1));
    let b = OperatorBuilder::stateless(OperatorKind::MapEach, MapEach::new(|x: u8| x));
    assert_eq!(b.state_id, "!");
    assert_eq!(b.kind, OperatorKind::MapEach);
}
