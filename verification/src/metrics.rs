//! Runtime metrics of a node and of a source: the counts, and the names under
//! which they are reported. Registering a metric and turning a count into a
//! rate is left to the caller.

use vstd::prelude::*;
use vstd::string::StringExecFns;

verus! {

/// The name of a metric: the node's name, an underscore, and what is
/// measured.
pub open spec fn metric_name(node_name: Seq<char>, measured: Seq<char>) -> Seq<char> {
    node_name + "_"@ + measured
}

/// Makes the name of a metric.
pub fn make_metric_name(node_name: &str, measured: &str) -> (name: String)
    ensures
        name@ == metric_name(node_name@, measured@),
{
    let mut name = node_name.to_owned();
    name.append("_");
    name.append(measured);
    name
}

/// The name of the counter of the bytes written through a handle.
pub fn bytes_written_name(handle_name: &str) -> (name: String)
    ensures
        name@ == metric_name(handle_name@, "bytes_written"@),
{
    make_metric_name(handle_name, "bytes_written")
}

/// The name of the counter of the bytes read through a handle.
pub fn bytes_read_name(handle_name: &str) -> (name: String)
    ensures
        name@ == metric_name(handle_name@, "bytes_read"@),
{
    make_metric_name(handle_name, "bytes_read")
}

/// The number of events that have come into a node, from which its
/// throughput is worked out.
#[derive(Clone, Debug, Default)]
pub struct InboundThroughput {
    name: String,
    marked: u64,
}

impl InboundThroughput {
    /// The name under which the metric is reported.
    pub closed spec fn spec_name(&self) -> Seq<char> {
        self.name@
    }

    /// The count so far.
    pub closed spec fn spec_value(&self) -> u64 {
        self.marked
    }

    /// The throughput gauge of the node `node_name`, with no event marked.
    pub fn new(node_name: &str) -> (m: InboundThroughput)
        ensures
            m.spec_name() == metric_name(node_name@, "inbound_throughput"@),
            m.spec_value() == 0,
    {
        InboundThroughput { name: make_metric_name(node_name, "inbound_throughput"), marked: 0 }
    }

    /// The name under which the gauge is reported.
    pub fn name(&self) -> (r: &String)
        ensures
            r@ == self.spec_name(),
    {
        &self.name
    }

    /// The number of events marked so far.
    pub fn value(&self) -> (v: u64)
        ensures
            v == self.spec_value(),
    {
        self.marked
    }

    /// Marks `value` more events.
    pub fn update_value(&mut self, value: u64)
        requires
            old(self).spec_value() + value <= u64::MAX,
        ensures
            final(self).spec_value() == old(self).spec_value() + value,
            final(self).spec_name() == old(self).spec_name(),
    {
        self.marked = self.marked + value;
    }
}

/// The number of epochs that a node has seen.
#[derive(Clone, Debug, Default)]
pub struct EpochCounter {
    name: String,
    counter_value: u64,
}

impl EpochCounter {
    /// The name under which the metric is reported.
    pub closed spec fn spec_name(&self) -> Seq<char> {
        self.name@
    }

    /// The count so far.
    pub closed spec fn spec_value(&self) -> u64 {
        self.counter_value
    }

    /// The epoch counter of the node `node_name`, at zero.
    pub fn new(node_name: &str) -> (m: EpochCounter)
        ensures
            m.spec_name() == metric_name(node_name@, "epoch_counter"@),
            m.spec_value() == 0,
    {
        EpochCounter { name: make_metric_name(node_name, "epoch_counter"), counter_value: 0 }
    }

    /// The name under which the counter is reported.
    pub fn name(&self) -> (r: &String)
        ensures
            r@ == self.spec_name(),
    {
        &self.name
    }

    /// The count so far.
    pub fn value(&self) -> (v: u64)
        ensures
            v == self.spec_value(),
    {
        self.counter_value
    }

    /// Adds `value` to the count.
    pub fn update_value(&mut self, value: u64)
        requires
            old(self).spec_value() + value <= u64::MAX,
        ensures
            final(self).spec_value() == old(self).spec_value() + value,
            final(self).spec_name() == old(self).spec_name(),
    {
        self.counter_value = self.counter_value + value;
    }
}

/// The number of watermarks that a node has seen.
#[derive(Clone, Debug, Default)]
pub struct WatermarkCounter {
    name: String,
    counter_value: u64,
}

impl WatermarkCounter {
    /// The name under which the metric is reported.
    pub closed spec fn spec_name(&self) -> Seq<char> {
        self.name@
    }

    /// The count so far.
    pub closed spec fn spec_value(&self) -> u64 {
        self.counter_value
    }

    /// The watermark counter of the node `node_name`, at zero.
    pub fn new(node_name: &str) -> (m: WatermarkCounter)
        ensures
            m.spec_name() == metric_name(node_name@, "watermark_counter"@),
            m.spec_value() == 0,
    {
        WatermarkCounter {
            name: make_metric_name(node_name, "watermark_counter"),
            counter_value: 0,
        }
    }

    /// The name under which the counter is reported.
    pub fn name(&self) -> (r: &String)
        ensures
            r@ == self.spec_name(),
    {
        &self.name
    }

    /// The count so far.
    pub fn value(&self) -> (v: u64)
        ensures
            v == self.spec_value(),
    {
        self.counter_value
    }

    /// Adds `value` to the count.
    pub fn update_value(&mut self, value: u64)
        requires
            old(self).spec_value() + value <= u64::MAX,
        ensures
            final(self).spec_value() == old(self).spec_value() + value,
            final(self).spec_name() == old(self).spec_name(),
    {
        self.counter_value = self.counter_value + value;
    }
}

/// The number of messages that have come into a source, from which its
/// message rate is worked out.
pub struct IncomingMessageRate {
    name: String,
    marked: u64,
}

impl IncomingMessageRate {
    /// The name under which the metric is reported.
    pub closed spec fn spec_name(&self) -> Seq<char> {
        self.name@
    }

    /// The count so far.
    pub closed spec fn spec_value(&self) -> u64 {
        self.marked
    }

    /// The message-rate gauge of the source `node_name`, with no message
    /// marked.
    pub fn new(node_name: &str) -> (m: IncomingMessageRate)
        ensures
            m.spec_name() == metric_name(node_name@, "incoming_message_rate"@),
            m.spec_value() == 0,
    {
        IncomingMessageRate {
            name: make_metric_name(node_name, "incoming_message_rate"),
            marked: 0,
        }
    }

    /// The name under which the gauge is reported.
    pub fn name(&self) -> (r: &String)
        ensures
            r@ == self.spec_name(),
    {
        &self.name
    }

    /// The number of messages marked so far.
    pub fn value(&self) -> (v: u64)
        ensures
            v == self.spec_value(),
    {
        self.marked
    }

    /// Marks `value` more messages.
    pub fn update_value(&mut self, value: u64)
        requires
            old(self).spec_value() + value <= u64::MAX,
        ensures
            final(self).spec_value() == old(self).spec_value() + value,
            final(self).spec_name() == old(self).spec_name(),
    {
        self.marked = self.marked + value;
    }
}

/// The number of errors that a source has met.
pub struct ErrorCounter {
    name: String,
    counter_value: u64,
}

impl ErrorCounter {
    /// The name under which the metric is reported.
    pub closed spec fn spec_name(&self) -> Seq<char> {
        self.name@
    }

    /// The count so far.
    pub closed spec fn spec_value(&self) -> u64 {
        self.counter_value
    }

    /// The error counter of the source `source_node_name`, at zero.
    pub fn new(source_node_name: &str) -> (m: ErrorCounter)
        ensures
            m.spec_name() == metric_name(source_node_name@, "error_counter"@),
            m.spec_value() == 0,
    {
        ErrorCounter {
            name: make_metric_name(source_node_name, "error_counter"),
            counter_value: 0,
        }
    }

    /// The name under which the counter is reported.
    pub fn name(&self) -> (r: &String)
        ensures
            r@ == self.spec_name(),
    {
        &self.name
    }

    /// The count so far.
    pub fn value(&self) -> (v: u64)
        ensures
            v == self.spec_value(),
    {
        self.counter_value
    }

    /// Adds `value` to the count.
    pub fn update_value(&mut self, value: u64)
        requires
            old(self).spec_value() + value <= u64::MAX,
        ensures
            final(self).spec_value() == old(self).spec_value() + value,
            final(self).spec_name() == old(self).spec_name(),
    {
        self.counter_value = self.counter_value + value;
    }
}

/// The metrics of a node.
#[derive(Clone, Debug, Default)]
pub struct NodeMetrics {
    pub inbound_throughput: InboundThroughput,
    pub epoch_counter: EpochCounter,
    pub watermark_counter: WatermarkCounter,
}

impl NodeMetrics {
    /// The metrics of the node `node_name`, all at zero.
    pub fn new(node_name: &str) -> (m: NodeMetrics)
        ensures
            m.inbound_throughput.spec_name() == metric_name(node_name@, "inbound_throughput"@),
            m.inbound_throughput.spec_value() == 0,
            m.epoch_counter.spec_name() == metric_name(node_name@, "epoch_counter"@),
            m.epoch_counter.spec_value() == 0,
            m.watermark_counter.spec_name() == metric_name(node_name@, "watermark_counter"@),
            m.watermark_counter.spec_value() == 0,
    {
        NodeMetrics {
            inbound_throughput: InboundThroughput::new(node_name),
            epoch_counter: EpochCounter::new(node_name),
            watermark_counter: WatermarkCounter::new(node_name),
        }
    }
}

/// The metrics of a source.
pub struct SourceMetrics {
    pub incoming_message_rate: IncomingMessageRate,
    pub error_counter: ErrorCounter,
}

impl SourceMetrics {
    /// The metrics of the source `source_node_name`, all at zero.
    pub fn new(source_node_name: &str) -> (m: SourceMetrics)
        ensures
            m.incoming_message_rate.spec_name() == metric_name(
                source_node_name@,
                "incoming_message_rate"@,
            ),
            m.incoming_message_rate.spec_value() == 0,
            m.error_counter.spec_name() == metric_name(source_node_name@, "error_counter"@),
            m.error_counter.spec_value() == 0,
    {
        SourceMetrics {
            incoming_message_rate: IncomingMessageRate::new(source_node_name),
            error_counter: ErrorCounter::new(source_node_name),
        }
    }
}

} // verus!
