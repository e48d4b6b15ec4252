//! Two small operators: one that wraps numbers into events, and one that
//! schedules a timer for every event it sees.

use crate::backend::{field_name, make_field_name, Backend};
use crate::codec::same_bytes;
use crate::error::{ArconResult, IndexError, StateError, StateResult};
use crate::function::Operator;
use crate::index::timer::{scheduled_into, Timer};
use crate::index::value::{value_table, value_table_result, EagerValue};
use crate::index::{logical, read_value, ArconState, IndexOps, Store, ValueIndex};
use crate::table::ImmutableTable;
use vstd::prelude::*;
use vstd::string::StringSliceAdditionalSpecFns;
use vstd::utf8::encode_utf8;

verus! {

/// An element of a stream: the data and, where it has one, its timestamp.
#[derive(Debug)]
pub struct ArconElement<T> {
    pub data: T,
    pub timestamp: Option<u64>,
}

/// An event that carries an identifier.
#[derive(Debug, Clone, Copy, PartialEq, Eq, Structural)]
pub struct CustomEvent {
    pub id: u64,
}

/// An operator that turns a number into the event with that identifier.
pub struct MyOperator;

impl MyOperator {
    /// Starts the operator. There is nothing to set up.
    pub fn on_start(&mut self) -> (r: ArconResult<()>)
        ensures
            r is Ok,
    {
        Ok(())
    }

    /// The event whose identifier is the element's number, with the
    /// element's timestamp.
    pub fn wrap(&self, element: ArconElement<u64>) -> (out: ArconElement<CustomEvent>)
        ensures
            out.data.id == element.data,
            out.timestamp == element.timestamp,
    {
        let custom_event = CustomEvent { id: element.data };
        ArconElement { data: custom_event, timestamp: element.timestamp }
    }
}

impl Operator for MyOperator {
    type IN = u64;

    type OUT = CustomEvent;

    open spec fn ready(&self) -> bool {
        true
    }

    open spec fn gives(&self, element: ArconElement<u64>, out: Seq<ArconElement<CustomEvent>>) -> bool {
        out == seq![
            ArconElement { data: CustomEvent { id: element.data }, timestamp: element.timestamp },
        ]
    }

    /// Gives out the one event that the element becomes.
    fn handle_element(&self, element: ArconElement<u64>) -> (out: Vec<ArconElement<CustomEvent>>) {
        let mut out: Vec<ArconElement<CustomEvent>> = Vec::new();
        out.push(self.wrap(element));
        assert(out@ =~= seq![
            ArconElement { data: CustomEvent { id: element.data }, timestamp: element.timestamp },
        ]);
        out
    }
}

/// How long after the current time the timer operator's timers fire.
pub open spec fn timer_delay() -> u64 {
    1000
}

/// An operator that schedules, for every event, a timer that fires a
/// thousand units of logical time later and carries the event's identifier.
pub struct TimerOperator;

impl TimerOperator {
    /// Schedules the timer for `element` under `key` and hands the element
    /// on. The timer is always scheduled: its time is after the current time.
    pub fn handle_element(
        &mut self,
        element: ArconElement<CustomEvent>,
        key: u64,
        timer: &mut Timer<u64>,
    ) -> (out: ArconElement<CustomEvent>)
        requires
            old(timer).wf(),
            old(timer).spec_time() + timer_delay() <= u64::MAX,
        ensures
            out == element,
            final(timer).wf(),
            final(timer).spec_time() == old(timer).spec_time(),
            final(timer).handle_name() == old(timer).handle_name(),
            scheduled_into(
                old(timer).scheduled(),
                ((old(timer).spec_time() + timer_delay()) as u64, (key, element.data.id)),
                final(timer).scheduled(),
            ),
    {
        let current_time = timer.current_time();
        let time = current_time + 1000;
        let scheduled = timer.schedule_at(key, time, element.data.id);
        assert(scheduled is Ok);
        element
    }

    /// Takes a timeout. The operator gives out nothing for it.
    pub fn handle_timeout(&mut self, timeout: u64) -> (out: Option<ArconElement<CustomEvent>>)
        ensures
            out is None,
    {
        None
    }
}

/// What reading the count of the active key gives.
pub open spec fn count_read(state: CountState, store: Store) -> StateResult<Option<u64>> {
    match state.count.active_key() {
        Some(k) => read_value::<u64>(
            logical(store, state.count.pending()),
            state.count.handle_name(),
            k,
        ),
        None => Err(StateError::Index(IndexError::KeyNotSet)),
    }
}

/// The name of the handle under which the counts are kept: the bytes of the
/// state's identifier, a slash, and the name of the field.
pub open spec fn count_handle_name() -> Seq<u8> {
    encode_utf8(field_name("count_state"@, "count"@))
}

/// The state of an operator that counts per key: one eager value index.
pub struct CountState {
    pub count: EagerValue<u64>,
}

impl CountState {
    /// The state with its index, which keeps the counts under the handle
    /// of the field `count` of this state. No key is set, and nothing is
    /// held back.
    pub fn new() -> (s: CountState)
        ensures
            s.valid(),
            s.count.pending() is None,
            s.count.active_key() is None,
            s.count.handle_name() == count_handle_name(),
    {
        let name = make_field_name("count_state", "count");
        CountState { count: EagerValue::new(name.as_str()) }
    }
}

impl ArconState for CountState {
    open spec fn valid(&self) -> bool {
        self.count.wf()
    }

    open spec fn spec_state_id() -> Seq<char> {
        "count_state"@
    }

    fn state_id() -> (id: String) {
        "count_state".to_owned()
    }

    open spec fn persisted(&self, store: Store) -> Store {
        logical(store, self.count.pending())
    }

    open spec fn all_keyed_at(&self, key: u64) -> bool {
        self.count.active_key() == Some(key)
    }

    open spec fn handle_names(&self) -> Seq<Seq<u8>> {
        seq![self.count.handle_name()]
    }

    /// Stores the count that is held back. The active key and the handle
    /// stay.
    fn persist(&mut self, backend: &mut Backend) -> (r: ArconResult<()>)
        ensures
            final(self).count.active_key() == old(self).count.active_key(),
            final(self).count.handle_name() == old(self).count.handle_name(),
            final(self).count.pending() is None,
            final(backend)@ == logical(old(backend)@, old(self).count.pending()),
    {
        self.count.persist(backend)
    }

    /// Makes `key` the active key of the counts, after the count that is
    /// held back has been stored. The handle stays.
    fn set_key(&mut self, backend: &mut Backend, key: u64)
        ensures
            final(self).count.active_key() == Some(key),
            final(self).count.handle_name() == old(self).count.handle_name(),
            final(self).count.pending() is None,
            final(backend)@ == logical(old(backend)@, old(self).count.pending()),
    {
        self.count.set_key(backend, key)
    }

    /// The table of the counts, where the count of the active key can be
    /// read; no table where it cannot.
    fn tables(&mut self, backend: &Backend) -> (r: Vec<ImmutableTable>)
        ensures
            final(self).count.pending() == old(self).count.pending(),
            final(self).count.active_key() == old(self).count.active_key(),
            final(self).count.handle_name() == old(self).count.handle_name(),
            match count_read(*old(self), backend@) {
                Ok(found) => r@.len() == 1 && r@[0]@ == value_table(
                    old(self).count.handle_name(),
                    found,
                ),
                Err(_) => r@.len() == 0,
            },
    {
        let mut tables: Vec<ImmutableTable> = Vec::new();
        match self.count.table(backend) {
            Ok(Some(t)) => {
                tables.push(t);
            },
            _ => {},
        }
        tables
    }

    fn table_ids() -> (r: Vec<String>)
        ensures
            r@.len() == 1,
            r@[0]@ == "count"@,
    {
        let mut ids: Vec<String> = Vec::new();
        ids.push("count".to_owned());
        ids
    }

    /// The table of the counts goes by the name `count`.
    fn get_table(&mut self, backend: &Backend, id: &str) -> (r: ArconResult<
        Option<ImmutableTable>,
    >)
        ensures
            final(self).count.pending() == old(self).count.pending(),
            final(self).count.active_key() == old(self).count.active_key(),
            final(self).count.handle_name() == old(self).count.handle_name(),
            if id.spec_bytes() == "count".spec_bytes() {
                value_table_result(
                    count_read(*old(self), backend@),
                    old(self).count.handle_name(),
                    r,
                )
            } else {
                r matches Ok(None)
            },
    {
        if same_bytes(id.as_bytes(), "count".as_bytes()) {
            self.count.table(backend)
        } else {
            Ok(None)
        }
    }

    open spec fn spec_has_tables() -> bool {
        true
    }

    fn has_tables() -> (r: bool) {
        true
    }
}

} // verus!
