//! DAO calendar: events managed by groups of the DAO, their status life cycle,
//! hooks and gauges, and the queries over them.
use cosmwasm_std::{CosmosMsg, Empty};
use vstd::prelude::*;
use vstd::string::StringSliceAdditionalSpecFns;

use crate::keyed::{
    as_map, clone_strings, find_key, get_key, has_key, keys_in_order, keys_unique, lemma_all_keys_listed,
    lemma_value_at_index,
    remove_key, set_key, take_key,
};
use crate::keyorder::{is_key_page, opt_view, str_views};
use crate::ordered::{
    ascending, find_id, get_id, id_map, lemma_id_map_entries, lemma_value_of_index, put_id, remove_id,
    take_id,
};
use crate::hooks::{add_hook, hook_view, remove_hook, remove_hook_by_index, HookError};
use crate::recurrence::{compute_instances, is_listing, scan_of, ComputedInstance, RecurrenceRule};
use crate::timestamp::Timestamp;

verus! {

/// Reply ids from this number on report failed event hooks.
pub const FAILED_EVENT_HOOK_REPLY_ID_BASE: u64 = 1_000_000;

pub const DEFAULT_LIMIT: u32 = 30;

pub const MAX_LIMIT: u32 = 100;

/// A message of the chain, carried as it is.
#[verifier::external_type_specification]
#[verifier::external_body]
#[verifier::reject_recursive_types(T)]
pub struct ExCosmosMsg<T>(CosmosMsg<T>);

/// The empty message extension of the chain.
#[verifier::external_type_specification]
#[verifier::external_body]
pub struct ExEmpty(Empty);

// ═══════════════════════════ Event Status ═══════════════════════════

#[derive(Clone, Copy, Debug, PartialEq, Eq, Structural)]
pub enum EventStatus {
    Upcoming,
    Active,
    Completed,
    Cancelled,
}

impl EventStatus {
    pub open spec fn code(self) -> u8 {
        match self {
            EventStatus::Upcoming => 0,
            EventStatus::Active => 1,
            EventStatus::Completed => 2,
            EventStatus::Cancelled => 3,
        }
    }

    pub open spec fn name(self) -> Seq<char> {
        match self {
            EventStatus::Upcoming => "upcoming"@,
            EventStatus::Active => "active"@,
            EventStatus::Completed => "completed"@,
            EventStatus::Cancelled => "cancelled"@,
        }
    }

    pub fn as_u8(&self) -> (n: u8)
        ensures
            n == self.code(),
    {
        match self {
            EventStatus::Upcoming => 0,
            EventStatus::Active => 1,
            EventStatus::Completed => 2,
            EventStatus::Cancelled => 3,
        }
    }

    /// The status's display name.
    pub fn to_string(&self) -> (s: String)
        ensures
            s@ == self.name(),
    {
        match self {
            EventStatus::Upcoming => String::from_str("upcoming"),
            EventStatus::Active => String::from_str("active"),
            EventStatus::Completed => String::from_str("completed"),
            EventStatus::Cancelled => String::from_str("cancelled"),
        }
    }
}

// ═══════════════════════════ Supporting Types ═══════════════════════════

#[derive(Debug)]
pub struct EventService {
    pub name: String,
    pub description: Option<String>,
    pub target_contract: Option<String>,
    pub msgs: Vec<CosmosMsg>,
}

#[derive(Clone, Copy, Debug, PartialEq, Eq, Structural)]
pub enum EventSupplierType {
    Authorization,
    Gauge,
    Service,
    Account,
}

#[derive(Debug)]
pub struct EventSupplier {
    pub contract: String,
    pub supplier_type: EventSupplierType,
}

#[derive(Debug)]
pub struct Group {
    pub id: String,
    pub dao: String,
    pub suppliers: Vec<EventSupplier>,
    pub name: String,
    pub description: Option<String>,
    pub color: Option<String>,
    pub members: Option<Vec<String>>,
}

#[derive(Debug)]
pub struct GaugeConfig {
    pub label: String,
    pub begin_msgs: Vec<CosmosMsg>,
    pub end_msgs: Vec<CosmosMsg>,
}

#[derive(Debug)]
pub struct EventGauge {
    pub event_id: u64,
    pub begin_msgs: Vec<CosmosMsg>,
    pub end_msgs: Vec<CosmosMsg>,
}

#[derive(Debug)]
pub struct EventServiceInit {
    pub name: String,
    pub description: Option<String>,
    pub target_contract: Option<String>,
    pub msgs: Vec<CosmosMsg>,
}

#[derive(Debug)]
pub struct EventSupplierInit {
    pub contract: String,
    pub supplier_type: EventSupplierType,
}

#[derive(Debug)]
pub struct GroupInit {
    pub id: String,
    pub suppliers: Vec<EventSupplierInit>,
    pub name: Option<String>,
    pub description: Option<String>,
    pub color: Option<String>,
    pub members: Option<Vec<String>>,
}

/// Core event type, generic over a metadata extension `TMetadata`.
#[derive(Debug)]
pub struct Event<TMetadata> {
    pub id: u64,
    pub title: String,
    pub description: Option<String>,
    pub start_time: Timestamp,
    pub end_time: Timestamp,
    pub timezone: Option<String>,
    pub managing_groups: Vec<String>,
    pub event_services: Vec<EventService>,
    pub extension: Option<TMetadata>,
    pub status: EventStatus,
    pub created_by: String,
    pub created_at: Timestamp,
}

/// The messages the calendar executes.
#[derive(Debug)]
pub enum ExecuteMsg<T> {
    CreateEvent {
        title: String,
        description: Option<String>,
        start_time: Timestamp,
        end_time: Timestamp,
        managing_groups: Vec<String>,
        services: Option<Vec<EventServiceInit>>,
        extension: Option<T>,
        timezone: Option<String>,
        recurrence: Option<RecurrenceRule>,
    },
    UpdateEvent {
        event_id: u64,
        title: Option<String>,
        description: Option<String>,
        start_time: Option<Timestamp>,
        end_time: Option<Timestamp>,
        managing_groups: Option<Vec<String>>,
        services: Option<Vec<EventServiceInit>>,
        extension: Option<T>,
        timezone: Option<String>,
    },
    CancelEvent { event_id: u64 },
    RegisterEventGauges { event_id: u64, begin_msgs: Vec<CosmosMsg>, end_msgs: Vec<CosmosMsg> },
    TriggerEventStart { event_id: u64 },
    TriggerEventEnd { event_id: u64 },
    RegisterGroup { group: GroupInit },
    UpdateGroup { group_id: String, suppliers: Option<Vec<EventSupplierInit>> },
    RemoveGroup { group_id: String },
    RenewCalendar { limit: Option<u32> },
    AddEventHook { address: String },
    RemoveEventHook { address: String },
}

/// What an executed message hands back.
#[derive(Debug)]
pub enum ExecuteOutcome {
    /// The id of the event created.
    Created { event_id: u64 },
    /// The status a cancelled event had.
    Cancelled { old_status: EventStatus },
    /// The status change of a triggered event.
    Triggered { old_status: EventStatus, new_status: EventStatus },
    /// How many events a renewal pruned.
    Renewed { pruned: usize },
    /// Nothing to hand back.
    Done,
}

#[derive(Debug)]
pub enum MigrateMsg {
    FromCompatible {},
}

#[derive(Debug)]
pub enum CalendarHookMsg {
    EventCreated { event_id: u64, creator: String },
    EventStatusChanged { event_id: u64, old_status: String, new_status: String },
    EventCancelled { event_id: u64 },
}

#[derive(Debug)]
pub enum CalendarHookExecuteMsg {
    CalendarHook(CalendarHookMsg),
}

#[derive(Debug)]
pub enum AuthorizationQueryMsg {
    IsAuthorized { sender: String },
}

#[derive(Debug)]
pub struct IsAuthorizedResponse {
    pub authorized: bool,
}

#[derive(Debug)]
pub struct ComputedRecurrence {
    pub event_id: u64,
    pub rule: RecurrenceRule,
}

// ═══════════════════════════ Errors ═══════════════════════════

#[derive(Debug)]
pub enum ContractError {
    Std { msg: String },
    HookError(HookError),
    Unauthorized {},
    NoSuchEvent { id: u64 },
    NoSuchGroup { id: String },
    InvalidTimeRange {},
    EventNotUpcoming { id: u64 },
    EventNotActive { id: u64 },
    AlreadyTriggered { id: u64 },
    GroupAlreadyExists { id: String },
    InvalidSupplierType {},
    InvalidTimezone { tz: String },
    InvalidHookIndex { idx: u64 },
    InvalidReplyID { id: u64 },
}

impl ContractError {
    /// Which kind of error this is (errors compare equal when of the same kind).
    pub open spec fn kind(self) -> int {
        match self {
            ContractError::Std { .. } => 0,
            ContractError::HookError(..) => 1,
            ContractError::Unauthorized {} => 2,
            ContractError::NoSuchEvent { .. } => 3,
            ContractError::NoSuchGroup { .. } => 4,
            ContractError::InvalidTimeRange {} => 5,
            ContractError::EventNotUpcoming { .. } => 6,
            ContractError::EventNotActive { .. } => 7,
            ContractError::AlreadyTriggered { .. } => 8,
            ContractError::GroupAlreadyExists { .. } => 9,
            ContractError::InvalidSupplierType {} => 10,
            ContractError::InvalidTimezone { .. } => 11,
            ContractError::InvalidHookIndex { .. } => 12,
            ContractError::InvalidReplyID { .. } => 13,
        }
    }

    fn kind_code(&self) -> (k: u8)
        ensures
            k == self.kind(),
    {
        match self {
            ContractError::Std { .. } => 0,
            ContractError::HookError(..) => 1,
            ContractError::Unauthorized {} => 2,
            ContractError::NoSuchEvent { .. } => 3,
            ContractError::NoSuchGroup { .. } => 4,
            ContractError::InvalidTimeRange {} => 5,
            ContractError::EventNotUpcoming { .. } => 6,
            ContractError::EventNotActive { .. } => 7,
            ContractError::AlreadyTriggered { .. } => 8,
            ContractError::GroupAlreadyExists { .. } => 9,
            ContractError::InvalidSupplierType {} => 10,
            ContractError::InvalidTimezone { .. } => 11,
            ContractError::InvalidHookIndex { .. } => 12,
            ContractError::InvalidReplyID { .. } => 13,
        }
    }
}

impl PartialEq for ContractError {
    fn eq(&self, other: &Self) -> (r: bool) {
        self.kind_code() == other.kind_code()
    }
}

impl vstd::std_specs::cmp::PartialEqSpecImpl for ContractError {
    open spec fn obeys_eq_spec() -> bool {
        true
    }

    open spec fn eq_spec(&self, other: &ContractError) -> bool {
        self.kind() == other.kind()
    }
}

// ═══════════════════════════ Small helpers ═══════════════════════════

/// The next step in asking a sender's authorization suppliers, one after the other.
#[derive(Clone, Copy, Debug, PartialEq, Eq, Structural)]
pub enum VouchStep {
    /// Ask the supplier at this index.
    Ask { index: usize },
    /// A supplier vouched for the sender.
    Vouched,
    /// No supplier vouched.
    NotVouched,
}

/// After the first `asked` of `n` suppliers were asked, the last answering
/// `last_vouched`: the first supplier that vouches settles it, else the next one is
/// asked, until none is left.
pub fn vouch_step(n: usize, asked: usize, last_vouched: bool) -> (r: VouchStep)
    requires
        asked <= n,
    ensures
        last_vouched ==> r == VouchStep::Vouched,
        !last_vouched && asked < n ==> r == (VouchStep::Ask { index: asked }),
        !last_vouched && asked == n ==> r == VouchStep::NotVouched,
{
    if last_vouched {
        VouchStep::Vouched
    } else if asked < n {
        VouchStep::Ask { index: asked }
    } else {
        VouchStep::NotVouched
    }
}

/// The reply id under which a failed event hook at index `idx` is reported.
pub fn failed_event_hook_id(idx: u64) -> (id: u64)
    requires
        idx <= u64::MAX - FAILED_EVENT_HOOK_REPLY_ID_BASE,
    ensures
        id == FAILED_EVENT_HOOK_REPLY_ID_BASE + idx,
{
    FAILED_EVENT_HOOK_REPLY_ID_BASE + idx
}

/// The page size of a listing: the requested limit (30 when none is given), at most 100.
pub open spec fn clamped(limit: Option<u32>) -> int {
    let l = match limit {
        Some(l) => l as int,
        None => DEFAULT_LIMIT as int,
    };
    if l < MAX_LIMIT { l } else { MAX_LIMIT as int }
}

pub fn clamp_limit(limit: Option<u32>) -> (n: usize)
    ensures
        n == clamped(limit),
{
    let l = match limit {
        Some(l) => l,
        None => DEFAULT_LIMIT,
    };
    (if l < MAX_LIMIT { l } else { MAX_LIMIT }) as usize
}

/// Bytes allowed in a timezone identifier: ASCII letters and digits, `/`, `_`, `-`, `+`.
pub open spec fn tz_byte(b: u8) -> bool {
    ||| 48 <= b <= 57
    ||| 65 <= b <= 90
    ||| 97 <= b <= 122
    ||| b == 47
    ||| b == 95
    ||| b == 45
    ||| b == 43
}

/// A timezone identifier is 1 to 64 bytes, all of them allowed.
pub open spec fn valid_timezone(b: Seq<u8>) -> bool {
    &&& 0 < b.len() <= 64
    &&& forall|i: int| 0 <= i < b.len() ==> tz_byte(#[trigger] b[i])
}

/// Validate an IANA timezone identifier string.
pub fn is_valid_timezone(tz: &str) -> (r: bool)
    ensures
        r == valid_timezone(tz.spec_bytes()),
{
    let bytes = tz.as_bytes();
    if bytes.len() == 0 || bytes.len() > 64 {
        return false;
    }
    let mut i: usize = 0;
    while i < bytes.len()
        invariant
            i <= bytes@.len(),
            bytes@ == tz.spec_bytes(),
            forall|j: int| 0 <= j < i ==> tz_byte(#[trigger] bytes@[j]),
        decreases bytes.len() - i,
    {
        let b = bytes[i];
        let ok = (48 <= b && b <= 57) || (65 <= b && b <= 90) || (97 <= b && b <= 122) || b == 47
            || b == 95 || b == 45 || b == 43;
        if !ok {
            return false;
        }
        i += 1;
    }
    true
}


// ═══════════════════════════ Calendar state ═══════════════════════════

/// The calendar contract's state.
#[derive(Debug)]
pub struct CalendarState<T> {
    /// The DAO, always authorized.
    pub dao: String,
    /// Number of events ever created; the last event id handed out.
    pub event_count: u64,
    /// event id -> event, ascending by id.
    pub events: Vec<(u64, Event<T>)>,
    /// group id -> group.
    pub groups: Vec<(String, Group)>,
    /// event id -> the groups joined to it (the join table of groups and events).
    pub event_groups: Vec<(u64, Vec<String>)>,
    /// Per-event gauge messages.
    pub gauges: Vec<(u64, EventGauge)>,
    /// Per-event recurrence rules.
    pub recurrences: Vec<(u64, RecurrenceRule)>,
    /// Contracts notified of event changes.
    pub hooks: Vec<String>,
}

/// The suppliers made from their initial form, one for one.
pub open spec fn suppliers_from(inits: Seq<EventSupplierInit>, sups: Seq<EventSupplier>) -> bool {
    &&& sups.len() == inits.len()
    &&& forall|i: int|
        0 <= i < sups.len() ==> #[trigger] sups[i].contract == inits[i].contract
            && sups[i].supplier_type == inits[i].supplier_type
}

/// The group registered by `dao` from `init`: its name defaults to its id, and an empty
/// member list counts as none.
pub open spec fn group_from(dao: String, init: GroupInit, g: Group) -> bool {
    &&& g.id == init.id
    &&& g.dao == dao
    &&& suppliers_from(init.suppliers@, g.suppliers@)
    &&& g.name == (match init.name {
        Some(n) => n,
        None => init.id,
    })
    &&& g.description == init.description
    &&& g.color == init.color
    &&& g.members == (match init.members {
        Some(m) => if m@.len() > 0 { Some(m) } else { None },
        None => None,
    })
}

/// The first of `ids` that names no group, if any.
pub open spec fn first_missing(groups: Map<Seq<char>, Group>, ids: Seq<String>) -> Option<int> {
    if exists|i: int| 0 <= i < ids.len() && !groups.contains_key(#[trigger] ids[i]@) {
        Some(
            choose|i: int|
                0 <= i < ids.len() && !groups.contains_key(#[trigger] ids[i]@) && forall|j: int|
                    0 <= j < i ==> groups.contains_key(ids[j]@),
        )
    } else {
        None
    }
}

/// The first id of the list that names no group is the one at `i` when every earlier
/// id names one.
pub proof fn lemma_first_missing_exists(groups: Map<Seq<char>, Group>, ids: Seq<String>, i: int)
    requires
        0 <= i < ids.len(),
        !groups.contains_key(ids[i]@),
        forall|j: int| 0 <= j < i ==> groups.contains_key(ids[j]@),
    ensures
        first_missing(groups, ids) == Some(i),
{
    let k = choose|k: int|
        0 <= k < ids.len() && !groups.contains_key(#[trigger] ids[k]@) && forall|j: int|
            0 <= j < k ==> groups.contains_key(ids[j]@);
    if k < i {
        assert(groups.contains_key(ids[k]@));
    } else if k > i {
        assert(groups.contains_key(ids[i]@));
    }
}

/// The contracts of the suppliers of type `ty` among `sups`, in order.
pub open spec fn contracts_of(sups: Seq<EventSupplier>, ty: EventSupplierType) -> Seq<String>
    decreases sups.len(),
{
    if sups.len() == 0 {
        seq![]
    } else {
        let rest = contracts_of(sups.drop_last(), ty);
        if sups.last().supplier_type == ty {
            rest.push(sups.last().contract)
        } else {
            rest
        }
    }
}

/// The contracts of the suppliers of type `ty` of a group, in order.
fn supplier_contracts(sups: &Vec<EventSupplier>, ty: EventSupplierType) -> (r: Vec<String>)
    ensures
        r@ == contracts_of(sups@, ty),
{
    let mut out: Vec<String> = Vec::new();
    let mut j: usize = 0;
    while j < sups.len()
        invariant
            j <= sups@.len(),
            out@ == contracts_of(sups@.take(j as int), ty),
        decreases sups.len() - j,
    {
        assert(sups@.take(j + 1).drop_last() =~= sups@.take(j as int));
        if sups[j].supplier_type == ty {
            out.push(sups[j].contract.clone());
        }
        j += 1;
    }
    assert(sups@.take(j as int) =~= sups@);
    out
}

/// Authorization supplier contracts of the listed groups (those that exist), in order.
pub open spec fn auth_contracts(groups: Map<Seq<char>, Group>, ids: Seq<String>) -> Seq<String>
    decreases ids.len(),
{
    if ids.len() == 0 {
        seq![]
    } else {
        let rest = auth_contracts(groups, ids.drop_last());
        let gid = ids.last()@;
        if groups.contains_key(gid) {
            rest + contracts_of(groups[gid].suppliers@, EventSupplierType::Authorization)
        } else {
            rest
        }
    }
}

/// A timezone identifier, given as text, is valid.
pub open spec fn tz_ok(tz: Seq<char>) -> bool {
    valid_timezone(vstd::utf8::encode_utf8(tz))
}

/// The service made from its initial form.
pub open spec fn service_of(init: EventServiceInit) -> EventService {
    EventService {
        name: init.name,
        description: init.description,
        target_contract: init.target_contract,
        msgs: init.msgs,
    }
}

pub open spec fn services_of(inits: Option<Vec<EventServiceInit>>) -> Seq<EventService> {
    match inits {
        Some(v) => v@.map_values(|i: EventServiceInit| service_of(i)),
        None => seq![],
    }
}

fn convert_services(services: Option<Vec<EventServiceInit>>) -> (r: Vec<EventService>)
    ensures
        r@ == services_of(services),
{
    match services {
        None => Vec::new(),
        Some(inits) => {
            let ghost iv = inits@;
            let mut inits = inits;
            let mut rev: Vec<EventService> = Vec::new();
            // Take the services off the end, then restore their order.
            while inits.len() > 0
                invariant
                    inits@.len() + rev@.len() == iv.len(),
                    inits@ == iv.take(inits@.len() as int),
                    forall|j: int|
                        0 <= j < rev@.len() ==> #[trigger] rev@[j] == service_of(
                            iv[iv.len() - 1 - j],
                        ),
                decreases inits.len(),
            {
                let init = inits.pop().unwrap();
                let EventServiceInit { name, description, target_contract, msgs } = init;
                rev.push(EventService { name, description, target_contract, msgs });
                assert(inits@ =~= iv.take(inits@.len() as int));
            }
            let mut out: Vec<EventService> = Vec::new();
            while rev.len() > 0
                invariant
                    out@.len() + rev@.len() == iv.len(),
                    forall|j: int|
                        0 <= j < rev@.len() ==> #[trigger] rev@[j] == service_of(
                            iv[iv.len() - 1 - j],
                        ),
                    forall|j: int| 0 <= j < out@.len() ==> #[trigger] out@[j] == service_of(iv[j]),
                decreases rev.len(),
            {
                let svc = rev.pop().unwrap();
                out.push(svc);
            }
            assert(out@ =~= iv.map_values(|i: EventServiceInit| service_of(i)));
            out
        },
    }
}

/// The event made by a successful create request.
pub open spec fn created_event<T>(
    e: Event<T>,
    id: u64,
    title: String,
    description: Option<String>,
    start_time: Timestamp,
    end_time: Timestamp,
    managing_groups: Seq<String>,
    services: Option<Vec<EventServiceInit>>,
    extension: Option<T>,
    timezone: Option<String>,
    sender: String,
    now: Timestamp,
) -> bool {
    &&& e.id == id
    &&& e.title == title
    &&& e.description == description
    &&& e.start_time == start_time
    &&& e.end_time == end_time
    &&& e.timezone == timezone
    &&& e.managing_groups@ == managing_groups
    &&& e.event_services@ == services_of(services)
    &&& e.extension == extension
    &&& e.status == EventStatus::Upcoming
    &&& e.created_by == sender
    &&& e.created_at == now
}

/// The event `o` after an update: each field given replaces the old one.
pub open spec fn updated_event<T>(
    o: Event<T>,
    e: Event<T>,
    title: Option<String>,
    description: Option<String>,
    start_time: Option<Timestamp>,
    end_time: Option<Timestamp>,
    managing_groups: Option<Vec<String>>,
    services: Option<Vec<EventServiceInit>>,
    extension: Option<T>,
    timezone: Option<String>,
) -> bool {
    &&& e.id == o.id
    &&& e.title == (match title {
        Some(t) => t,
        None => o.title,
    })
    &&& e.description == (if description is Some {
        description
    } else {
        o.description
    })
    &&& e.start_time == (match start_time {
        Some(t) => t,
        None => o.start_time,
    })
    &&& e.end_time == (match end_time {
        Some(t) => t,
        None => o.end_time,
    })
    &&& e.managing_groups@ == (match managing_groups {
        Some(g) => g@,
        None => o.managing_groups@,
    })
    &&& e.event_services@ == (if services is Some {
        services_of(services)
    } else {
        o.event_services@
    })
    &&& e.extension == (if extension is Some {
        extension
    } else {
        o.extension
    })
    &&& e.timezone == (if timezone is Some {
        timezone
    } else {
        o.timezone
    })
    &&& e.status == o.status
    &&& e.created_by == o.created_by
    &&& e.created_at == o.created_at
}

/// The event `o` with its status set to `status`, all else kept.
pub open spec fn with_status<T>(o: Event<T>, e: Event<T>, status: EventStatus) -> bool {
    &&& e.id == o.id
    &&& e.title == o.title
    &&& e.description == o.description
    &&& e.start_time == o.start_time
    &&& e.end_time == o.end_time
    &&& e.timezone == o.timezone
    &&& e.managing_groups == o.managing_groups
    &&& e.event_services == o.event_services
    &&& e.extension == o.extension
    &&& e.status == status
    &&& e.created_by == o.created_by
    &&& e.created_at == o.created_at
}

/// Error of a request that names groups, by the first group that does not exist.
pub open spec fn missing_group_error(groups: Map<Seq<char>, Group>, ids: Seq<String>) -> Option<ContractError> {
    match first_missing(groups, ids) {
        Some(i) => Some(ContractError::NoSuchGroup { id: ids[i] }),
        None => None,
    }
}

pub open spec fn timezone_error(timezone: Option<String>) -> Option<ContractError> {
    match timezone {
        Some(tz) => if tz_ok(tz@) {
            None
        } else {
            Some(ContractError::InvalidTimezone { tz })
        },
        None => None,
    }
}

/// One status may follow another: it stays, or an upcoming event becomes active, an
/// active one completed, and an upcoming or active one cancelled.
pub open spec fn status_step(a: EventStatus, b: EventStatus) -> bool {
    ||| a == b
    ||| (a == EventStatus::Upcoming && b == EventStatus::Active)
    ||| (a == EventStatus::Active && b == EventStatus::Completed)
    ||| (a == EventStatus::Upcoming && b == EventStatus::Cancelled)
    ||| (a == EventStatus::Active && b == EventStatus::Cancelled)
}

/// From `before` to `after`, every event kept moved by one allowed status step (so a
/// completed or cancelled event stays so), and every new event is upcoming.
pub open spec fn statuses_kept<T>(before: Map<u64, Event<T>>, after: Map<u64, Event<T>>) -> bool {
    &&& forall|k: u64|
        before.contains_key(k) && #[trigger] after.contains_key(k) ==> status_step(
            before[k].status,
            after[k].status,
        )
    &&& forall|k: u64|
        #[trigger] after.contains_key(k) && !before.contains_key(k) ==> after[k].status
            == EventStatus::Upcoming
}

impl<T> CalendarState<T> {
    pub open spec fn wf(&self) -> bool {
        &&& ascending(self.events@)
        &&& forall|k: u64|
            #[trigger] self.event_map().contains_key(k) ==> self.event_map()[k].id == k && k
                <= self.event_count
        &&& keys_unique(self.groups@)
        &&& ascending(self.event_groups@)
        &&& ascending(self.gauges@)
        &&& ascending(self.recurrences@)
    }

    pub open spec fn event_map(&self) -> Map<u64, Event<T>> {
        id_map(self.events@)
    }

    pub open spec fn group_map(&self) -> Map<Seq<char>, Group> {
        as_map(self.groups@)
    }

    /// event id -> groups joined to it.
    pub open spec fn join_map(&self) -> Map<u64, Seq<String>> {
        id_map(self.event_groups@).map_values(|g: Vec<String>| g@)
    }

    pub open spec fn gauge_map(&self) -> Map<u64, EventGauge> {
        id_map(self.gauges@)
    }

    pub open spec fn recurrence_map(&self) -> Map<u64, RecurrenceRule> {
        id_map(self.recurrences@)
    }

    /// The DAO, or a group's authorization supplier (as answered by the caller), vouches
    /// for the sender.
    pub open spec fn authorized(&self, sender: Seq<char>, vouched: bool) -> bool {
        sender == self.dao@ || vouched
    }

    /// A fresh calendar of the DAO `dao`.
    pub fn new(dao: String) -> (s: Self)
        ensures
            s.wf(),
            s.dao == dao,
            s.event_count == 0,
            s.event_map() == Map::<u64, Event<T>>::empty(),
            s.group_map() == Map::<Seq<char>, Group>::empty(),
            s.join_map() == Map::<u64, Seq<String>>::empty(),
            s.gauge_map() == Map::<u64, EventGauge>::empty(),
            s.recurrence_map() == Map::<u64, RecurrenceRule>::empty(),
            s.hooks@.len() == 0,
    {
        let s = CalendarState {
            dao,
            event_count: 0,
            events: Vec::new(),
            groups: Vec::new(),
            event_groups: Vec::new(),
            gauges: Vec::new(),
            recurrences: Vec::new(),
            hooks: Vec::new(),
        };
        assert(s.event_map() =~= Map::<u64, Event<T>>::empty());
        assert(s.group_map() =~= Map::<Seq<char>, Group>::empty());
        assert(s.join_map() =~= Map::<u64, Seq<String>>::empty());
        assert(s.gauge_map() =~= Map::<u64, EventGauge>::empty());
        assert(s.recurrence_map() =~= Map::<u64, RecurrenceRule>::empty());
        s
    }

    /// Registers a group from its initial form; its supplier contracts and members are
    /// addresses already validated. A group id can be registered once.
    pub fn save_group_from_init(&mut self, dao: &String, init: GroupInit) -> (r: Result<(), ContractError>)
        requires
            old(self).wf(),
        ensures
            final(self).wf(),
            old(self).group_map().contains_key(init.id@) ==> (r matches Err(
                ContractError::GroupAlreadyExists { id },
            ) && id == init.id && *final(self) == *old(self)),
            !old(self).group_map().contains_key(init.id@) ==> r is Ok && final(self).group_map()
                == old(self).group_map().insert(init.id@, final(self).group_map()[init.id@])
                && group_from(*dao, init, final(self).group_map()[init.id@]),
            final(self).dao == old(self).dao,
            final(self).event_count == old(self).event_count,
            final(self).events == old(self).events,
            final(self).event_groups == old(self).event_groups,
            final(self).gauges == old(self).gauges,
            final(self).recurrences == old(self).recurrences,
            final(self).hooks == old(self).hooks,
    {
        if find_key(&self.groups, &init.id).is_some() {
            return Err(ContractError::GroupAlreadyExists { id: init.id });
        }
        let ghost init0 = init;
        let GroupInit { id, suppliers: inits, name, description, color, members } = init;
        let suppliers = suppliers_of(&inits);
        let members = match members {
            Some(m) => if m.len() > 0 {
                Some(m)
            } else {
                None
            },
            None => None,
        };
        let name = match name {
            Some(n) => n,
            None => id.clone(),
        };
        let group = Group {
            id: id.clone(),
            dao: dao.clone(),
            suppliers,
            name,
            description,
            color,
            members,
        };
        let ghost g = group;
        let ghost key = id@;
        set_key(&mut self.groups, id, group);
        assert(self.group_map()[key] == g);
        assert(group_from(*dao, init0, g));
        Ok(())
    }

    /// Authorization supplier contracts of the managing groups (in order) to ask about
    /// the sender.
    pub fn authorization_contracts(&self, managing_groups: &Vec<String>) -> (r: Vec<String>)
        requires
            self.wf(),
        ensures
            r@ == auth_contracts(self.group_map(), managing_groups@),
    {
        let mut out: Vec<String> = Vec::new();
        let mut i: usize = 0;
        while i < managing_groups.len()
            invariant
                i <= managing_groups@.len(),
                self.wf(),
                out@ == auth_contracts(self.group_map(), managing_groups@.take(i as int)),
            decreases managing_groups.len() - i,
        {
            let ghost prefix = managing_groups@.take(i as int);
            assert(managing_groups@.take(i + 1).drop_last() =~= prefix);
            match get_key(&self.groups, &managing_groups[i]) {
                Some(group) => {
                    let mut found = supplier_contracts(&group.suppliers, EventSupplierType::Authorization);
                    out.append(&mut found);
                },
                None => {},
            }
            i += 1;
        }
        assert(managing_groups@.take(i as int) =~= managing_groups@);
        out
    }

    /// The groups that manage event `event_id`, if it exists.
    pub fn managing_groups_of(&self, event_id: u64) -> (r: Option<&Vec<String>>)
        requires
            self.wf(),
        ensures
            r == (if self.event_map().contains_key(event_id) {
                Some(&self.event_map()[event_id].managing_groups)
            } else {
                None
            }),
    {
        match get_id(&self.events, event_id) {
            Some(e) => Some(&e.managing_groups),
            None => None,
        }
    }

    /// The index of the first of `ids` that names no group.
    fn missing_group(&self, ids: &Vec<String>) -> (r: Option<usize>)
        requires
            self.wf(),
        ensures
            match r {
                Some(i) => i < ids@.len() && first_missing(self.group_map(), ids@) == Some(i as int),
                None => first_missing(self.group_map(), ids@) is None,
            },
    {
        let mut i: usize = 0;
        while i < ids.len()
            invariant
                i <= ids@.len(),
                self.wf(),
                forall|j: int| 0 <= j < i ==> self.group_map().contains_key(#[trigger] ids@[j]@),
            decreases ids.len() - i,
        {
            match find_key(&self.groups, &ids[i]) {
                None => {
                    proof {
                        lemma_first_missing_exists(self.group_map(), ids@, i as int);
                    }
                    return Some(i);
                },
                Some(k) => {
                    assert(has_key(self.groups@, self.groups@[k as int].0@));
                },
            }
            i += 1;
        }
        None
    }

    fn assert_dao(&self, sender: &String) -> (r: Result<(), ContractError>)
        ensures
            sender@ == self.dao@ ==> r is Ok,
            sender@ != self.dao@ ==> r == Err::<(), ContractError>(ContractError::Unauthorized {}),
    {
        if *sender == self.dao {
            Ok(())
        } else {
            Err(ContractError::Unauthorized {})
        }
    }

    /// Why a create request is refused, checked in this order, if it is.
    pub open spec fn create_error(
        &self,
        sender: Seq<char>,
        start_time: Timestamp,
        end_time: Timestamp,
        managing_groups: Seq<String>,
        timezone: Option<String>,
        vouched: bool,
    ) -> Option<ContractError> {
        if start_time.nanos >= end_time.nanos {
            Some(ContractError::InvalidTimeRange {})
        } else if timezone_error(timezone) is Some {
            timezone_error(timezone)
        } else if missing_group_error(self.group_map(), managing_groups) is Some {
            missing_group_error(self.group_map(), managing_groups)
        } else if !self.authorized(sender, vouched) {
            Some(ContractError::Unauthorized {})
        } else {
            None
        }
    }

    /// Why a create request by `sender` would be refused without asking the suppliers;
    /// `Unauthorized` means they are to be asked.
    pub fn check_create(
        &self,
        sender: &String,
        start_time: Timestamp,
        end_time: Timestamp,
        managing_groups: &Vec<String>,
        timezone: &Option<String>,
    ) -> (r: Option<ContractError>)
        requires
            self.wf(),
        ensures
            r == self.create_error(sender@, start_time, end_time, managing_groups@, *timezone, false),
    {
        if start_time.nanos >= end_time.nanos {
            return Some(ContractError::InvalidTimeRange {});
        }
        if let Some(tz) = timezone {
            if !is_valid_timezone(tz.as_str()) {
                return Some(ContractError::InvalidTimezone { tz: tz.clone() });
            }
        }
        if let Some(i) = self.missing_group(managing_groups) {
            return Some(ContractError::NoSuchGroup { id: managing_groups[i].clone() });
        }
        if *sender != self.dao {
            return Some(ContractError::Unauthorized {});
        }
        None
    }

    /// Creates an event; `vouched` is whether an authorization supplier of the managing
    /// groups vouches for the sender. The new event gets the next id.
    pub fn execute_create_event(
        &mut self,
        sender: String,
        now: Timestamp,
        title: String,
        description: Option<String>,
        start_time: Timestamp,
        end_time: Timestamp,
        managing_groups: Vec<String>,
        services: Option<Vec<EventServiceInit>>,
        extension: Option<T>,
        timezone: Option<String>,
        recurrence: Option<RecurrenceRule>,
        vouched: bool,
    ) -> (r: Result<u64, ContractError>)
        requires
            old(self).wf(),
            old(self).event_count < u64::MAX,
        ensures
            statuses_kept(old(self).event_map(), final(self).event_map()),
            final(self).wf(),
            old(self).create_error(sender@, start_time, end_time, managing_groups@, timezone, vouched)
                matches Some(e) ==> r == Err::<u64, ContractError>(e) && *final(self) == *old(self),
            old(self).create_error(sender@, start_time, end_time, managing_groups@, timezone, vouched)
                is None ==> ({
                let id = (old(self).event_count + 1) as u64;
                &&& r == Ok::<u64, ContractError>(id)
                &&& final(self).event_count == id
                &&& !old(self).event_map().contains_key(id)
                &&& final(self).event_map() == old(self).event_map().insert(
                    id,
                    final(self).event_map()[id],
                )
                &&& created_event(
                    final(self).event_map()[id],
                    id,
                    title,
                    description,
                    start_time,
                    end_time,
                    managing_groups@,
                    services,
                    extension,
                    timezone,
                    sender,
                    now,
                )
                &&& final(self).join_map() == old(self).join_map().insert(id, managing_groups@)
                &&& final(self).recurrence_map() == (match recurrence {
                    Some(rr) => old(self).recurrence_map().insert(id, rr),
                    None => old(self).recurrence_map(),
                })
                &&& final(self).dao == old(self).dao
                &&& final(self).groups == old(self).groups
                &&& final(self).gauges == old(self).gauges
                &&& final(self).hooks == old(self).hooks
            }),
    {
        if start_time.nanos >= end_time.nanos {
            return Err(ContractError::InvalidTimeRange {});
        }
        if let Some(tz) = &timezone {
            if !is_valid_timezone(tz.as_str()) {
                return Err(ContractError::InvalidTimezone { tz: tz.clone() });
            }
        }
        if let Some(i) = self.missing_group(&managing_groups) {
            return Err(ContractError::NoSuchGroup { id: managing_groups[i].clone() });
        }
        if !(sender == self.dao || vouched) {
            return Err(ContractError::Unauthorized {});
        }
        let id = self.event_count + 1;
        proof {
            if old(self).event_map().contains_key(id) {
                assert(old(self).event_map()[id].id == id);
            }
        }
        self.event_count = id;
        let joined = clone_strings(&managing_groups);
        let ghost groups_view = managing_groups@;
        let event = Event {
            id,
            title,
            description,
            start_time,
            end_time,
            timezone,
            managing_groups,
            event_services: convert_services(services),
            extension,
            status: EventStatus::Upcoming,
            created_by: sender,
            created_at: now,
        };
        let ghost ev = event;
        put_id(&mut self.events, id, event);
        put_id(&mut self.event_groups, id, joined);
        if let Some(rr) = recurrence {
            put_id(&mut self.recurrences, id, rr);
        }
        proof {
            assert(self.event_map()[id] == ev);
            assert(self.event_map() =~= old(self).event_map().insert(id, self.event_map()[id]));
            assert(self.join_map() =~= old(self).join_map().insert(id, groups_view));
        }
        Ok(id)
    }

    /// Why an update request is refused, checked in this order, if it is.
    pub open spec fn update_error(
        &self,
        sender: Seq<char>,
        event_id: u64,
        start_time: Option<Timestamp>,
        end_time: Option<Timestamp>,
        managing_groups: Option<Vec<String>>,
        timezone: Option<String>,
        vouched: bool,
    ) -> Option<ContractError> {
        if !self.event_map().contains_key(event_id) {
            Some(ContractError::NoSuchEvent { id: event_id })
        } else {
            let o = self.event_map()[event_id];
            let ns = match start_time {
                Some(t) => t,
                None => o.start_time,
            };
            let ne = match end_time {
                Some(t) => t,
                None => o.end_time,
            };
            if o.status == EventStatus::Completed || o.status == EventStatus::Cancelled {
                Some(ContractError::EventNotUpcoming { id: event_id })
            } else if !self.authorized(sender, vouched) {
                Some(ContractError::Unauthorized {})
            } else if ns.nanos >= ne.nanos {
                Some(ContractError::InvalidTimeRange {})
            } else if managing_groups is Some && missing_group_error(
                self.group_map(),
                managing_groups->0@,
            ) is Some {
                missing_group_error(self.group_map(), managing_groups->0@)
            } else {
                timezone_error(timezone)
            }
        }
    }

    /// Why an update request by `sender` would be refused without asking the suppliers;
    /// `Unauthorized` means they are to be asked.
    pub fn check_update(
        &self,
        sender: &String,
        event_id: u64,
        start_time: Option<Timestamp>,
        end_time: Option<Timestamp>,
        managing_groups: &Option<Vec<String>>,
        timezone: &Option<String>,
    ) -> (r: Option<ContractError>)
        requires
            self.wf(),
        ensures
            r == self.update_error(sender@, event_id, start_time, end_time, *managing_groups, *timezone, false),
    {
        let (status, start0, end0) = match get_id(&self.events, event_id) {
            Some(e) => (e.status, e.start_time, e.end_time),
            None => {
                return Some(ContractError::NoSuchEvent { id: event_id });
            },
        };
        if status == EventStatus::Completed || status == EventStatus::Cancelled {
            return Some(ContractError::EventNotUpcoming { id: event_id });
        }
        if *sender != self.dao {
            return Some(ContractError::Unauthorized {});
        }
        let ns = match start_time {
            Some(t) => t,
            None => start0,
        };
        let ne = match end_time {
            Some(t) => t,
            None => end0,
        };
        if ns.nanos >= ne.nanos {
            return Some(ContractError::InvalidTimeRange {});
        }
        if let Some(g) = managing_groups {
            if let Some(i) = self.missing_group(g) {
                return Some(ContractError::NoSuchGroup { id: g[i].clone() });
            }
        }
        if let Some(tz) = timezone {
            if !is_valid_timezone(tz.as_str()) {
                return Some(ContractError::InvalidTimezone { tz: tz.clone() });
            }
        }
        None
    }

    /// Updates an event that is neither completed nor cancelled; `vouched` is whether an
    /// authorization supplier of its current managing groups vouches for the sender.
    pub fn execute_update_event(
        &mut self,
        sender: String,
        event_id: u64,
        title: Option<String>,
        description: Option<String>,
        start_time: Option<Timestamp>,
        end_time: Option<Timestamp>,
        managing_groups: Option<Vec<String>>,
        services: Option<Vec<EventServiceInit>>,
        extension: Option<T>,
        timezone: Option<String>,
        vouched: bool,
    ) -> (r: Result<(), ContractError>)
        requires
            old(self).wf(),
        ensures
            statuses_kept(old(self).event_map(), final(self).event_map()),
            final(self).wf(),
            old(self).update_error(sender@, event_id, start_time, end_time, managing_groups, timezone, vouched)
                matches Some(e) ==> r == Err::<(), ContractError>(e) && *final(self) == *old(self),
            old(self).update_error(sender@, event_id, start_time, end_time, managing_groups, timezone, vouched)
                is None ==> ({
                &&& r is Ok
                &&& final(self).event_map() == old(self).event_map().insert(
                    event_id,
                    final(self).event_map()[event_id],
                )
                &&& updated_event(
                    old(self).event_map()[event_id],
                    final(self).event_map()[event_id],
                    title,
                    description,
                    start_time,
                    end_time,
                    managing_groups,
                    services,
                    extension,
                    timezone,
                )
                &&& final(self).join_map() == (match managing_groups {
                    Some(g) => old(self).join_map().insert(event_id, g@),
                    None => old(self).join_map(),
                })
                &&& final(self).event_count == old(self).event_count
                &&& final(self).dao == old(self).dao
                &&& final(self).groups == old(self).groups
                &&& final(self).gauges == old(self).gauges
                &&& final(self).recurrences == old(self).recurrences
                &&& final(self).hooks == old(self).hooks
            }),
    {
        let (status, start0, end0) = match get_id(&self.events, event_id) {
            Some(e) => (e.status, e.start_time, e.end_time),
            None => {
                return Err(ContractError::NoSuchEvent { id: event_id });
            },
        };
        if status == EventStatus::Completed || status == EventStatus::Cancelled {
            return Err(ContractError::EventNotUpcoming { id: event_id });
        }
        if !(sender == self.dao || vouched) {
            return Err(ContractError::Unauthorized {});
        }
        let ns = match start_time {
            Some(t) => t,
            None => start0,
        };
        let ne = match end_time {
            Some(t) => t,
            None => end0,
        };
        if ns.nanos >= ne.nanos {
            return Err(ContractError::InvalidTimeRange {});
        }
        if let Some(g) = &managing_groups {
            if let Some(i) = self.missing_group(g) {
                return Err(ContractError::NoSuchGroup { id: g[i].clone() });
            }
        }
        if let Some(tz) = &timezone {
            if !is_valid_timezone(tz.as_str()) {
                return Err(ContractError::InvalidTimezone { tz: tz.clone() });
            }
        }
        let ghost old_ev = old(self).event_map()[event_id];
        let ghost groups_arg = managing_groups;
        let mut ev = take_id(&mut self.events, event_id).unwrap();
        if let Some(t) = title {
            ev.title = t;
        }
        if description.is_some() {
            ev.description = description;
        }
        ev.start_time = ns;
        ev.end_time = ne;
        if let Some(g) = managing_groups {
            let joined = clone_strings(&g);
            put_id(&mut self.event_groups, event_id, joined);
            ev.managing_groups = g;
        }
        if services.is_some() {
            ev.event_services = convert_services(services);
        }
        if extension.is_some() {
            ev.extension = extension;
        }
        if timezone.is_some() {
            ev.timezone = timezone;
        }
        let ghost new_ev = ev;
        put_id(&mut self.events, event_id, ev);
        proof {
            assert(self.event_map()[event_id] == new_ev);
            assert(self.event_map() =~= old(self).event_map().insert(event_id, new_ev));
            assert forall|k: u64| #[trigger] self.event_map().contains_key(k) implies self.event_map()[k].id
                == k && k <= self.event_count by {
                if k != event_id {
                    assert(old(self).event_map().contains_key(k));
                }
            }
            match groups_arg {
                Some(g) => {
                    assert(self.join_map() =~= old(self).join_map().insert(event_id, g@));
                },
                None => {},
            }
        }
        Ok(())
    }

    /// Why a status change by a managing party is refused (cancel), if it is.
    pub open spec fn cancel_error(&self, sender: Seq<char>, event_id: u64, vouched: bool) -> Option<ContractError> {
        if !self.event_map().contains_key(event_id) {
            Some(ContractError::NoSuchEvent { id: event_id })
        } else if self.event_map()[event_id].status == EventStatus::Completed
            || self.event_map()[event_id].status == EventStatus::Cancelled {
            Some(ContractError::EventNotUpcoming { id: event_id })
        } else if !self.authorized(sender, vouched) {
            Some(ContractError::Unauthorized {})
        } else {
            None
        }
    }

    /// Why a cancel request by `sender` would be refused without asking the suppliers;
    /// `Unauthorized` means they are to be asked.
    pub fn check_cancel(&self, sender: &String, event_id: u64) -> (r: Option<ContractError>)
        requires
            self.wf(),
        ensures
            r == self.cancel_error(sender@, event_id, false),
    {
        let status = match get_id(&self.events, event_id) {
            Some(e) => e.status,
            None => {
                return Some(ContractError::NoSuchEvent { id: event_id });
            },
        };
        if status == EventStatus::Completed || status == EventStatus::Cancelled {
            return Some(ContractError::EventNotUpcoming { id: event_id });
        }
        if *sender != self.dao {
            return Some(ContractError::Unauthorized {});
        }
        None
    }

    /// Sets the status of event `event_id` (which exists) to `status`.
    fn set_status(&mut self, event_id: u64, status: EventStatus)
        requires
            old(self).wf(),
            old(self).event_map().contains_key(event_id),
        ensures
            final(self).wf(),
            final(self).event_map() == old(self).event_map().insert(
                event_id,
                final(self).event_map()[event_id],
            ),
            with_status(old(self).event_map()[event_id], final(self).event_map()[event_id], status),
            final(self).event_count == old(self).event_count,
            final(self).dao == old(self).dao,
            final(self).groups == old(self).groups,
            final(self).event_groups == old(self).event_groups,
            final(self).gauges == old(self).gauges,
            final(self).recurrences == old(self).recurrences,
            final(self).hooks == old(self).hooks,
    {
        let mut ev = take_id(&mut self.events, event_id).unwrap();
        ev.status = status;
        let ghost new_ev = ev;
        put_id(&mut self.events, event_id, ev);
        proof {
            assert(self.event_map()[event_id] == new_ev);
            assert(self.event_map() =~= old(self).event_map().insert(event_id, new_ev));
            assert forall|k: u64| #[trigger] self.event_map().contains_key(k) implies self.event_map()[k].id
                == k && k <= self.event_count by {
                if k != event_id {
                    assert(old(self).event_map().contains_key(k));
                }
            }
        }
    }

    /// Cancels an event that is neither completed nor cancelled; hands back its former
    /// status.
    pub fn execute_cancel_event(&mut self, sender: String, event_id: u64, vouched: bool) -> (r: Result<EventStatus, ContractError>)
        requires
            old(self).wf(),
        ensures
            statuses_kept(old(self).event_map(), final(self).event_map()),
            final(self).wf(),
            old(self).cancel_error(sender@, event_id, vouched) matches Some(e) ==> r == Err::<
                EventStatus,
                ContractError,
            >(e) && *final(self) == *old(self),
            old(self).cancel_error(sender@, event_id, vouched) is None ==> ({
                &&& r == Ok::<EventStatus, ContractError>(old(self).event_map()[event_id].status)
                &&& final(self).event_map() == old(self).event_map().insert(
                    event_id,
                    final(self).event_map()[event_id],
                )
                &&& with_status(
                    old(self).event_map()[event_id],
                    final(self).event_map()[event_id],
                    EventStatus::Cancelled,
                )
                &&& final(self).event_count == old(self).event_count
                &&& final(self).dao == old(self).dao
                &&& final(self).groups == old(self).groups
                &&& final(self).event_groups == old(self).event_groups
                &&& final(self).gauges == old(self).gauges
                &&& final(self).recurrences == old(self).recurrences
                &&& final(self).hooks == old(self).hooks
            }),
    {
        let status = match get_id(&self.events, event_id) {
            Some(e) => e.status,
            None => {
                return Err(ContractError::NoSuchEvent { id: event_id });
            },
        };
        if status == EventStatus::Completed || status == EventStatus::Cancelled {
            return Err(ContractError::EventNotUpcoming { id: event_id });
        }
        if !(sender == self.dao || vouched) {
            return Err(ContractError::Unauthorized {});
        }
        self.set_status(event_id, EventStatus::Cancelled);
        Ok(status)
    }

    /// Why a trigger is refused, if it is: the event must exist, have status `from` and
    /// have reached `at` (its start for a start, its end for an end) by `now`.
    pub open spec fn trigger_error(&self, now: Timestamp, event_id: u64, start: bool) -> Option<ContractError> {
        if !self.event_map().contains_key(event_id) {
            Some(ContractError::NoSuchEvent { id: event_id })
        } else {
            let e = self.event_map()[event_id];
            if start {
                if e.status != EventStatus::Upcoming || now.nanos < e.start_time.nanos {
                    Some(ContractError::EventNotUpcoming { id: event_id })
                } else {
                    None
                }
            } else {
                if e.status != EventStatus::Active || now.nanos < e.end_time.nanos {
                    Some(ContractError::EventNotActive { id: event_id })
                } else {
                    None
                }
            }
        }
    }

    /// Moves an event along its life cycle: an upcoming event whose start has come
    /// becomes active (`start`), an active event whose end has come becomes completed.
    /// Anyone may trigger. Hands back the former and the new status.
    pub fn execute_trigger(&mut self, now: Timestamp, event_id: u64, start: bool) -> (r: Result<(EventStatus, EventStatus), ContractError>)
        requires
            old(self).wf(),
        ensures
            final(self).wf(),
            old(self).trigger_error(now, event_id, start) matches Some(e) ==> r == Err::<
                (EventStatus, EventStatus),
                ContractError,
            >(e) && *final(self) == *old(self),
            old(self).trigger_error(now, event_id, start) is None ==> ({
                let new_status = if start {
                    EventStatus::Active
                } else {
                    EventStatus::Completed
                };
                &&& r == Ok::<(EventStatus, EventStatus), ContractError>(
                    (old(self).event_map()[event_id].status, new_status),
                )
                &&& final(self).event_map() == old(self).event_map().insert(
                    event_id,
                    final(self).event_map()[event_id],
                )
                &&& with_status(
                    old(self).event_map()[event_id],
                    final(self).event_map()[event_id],
                    new_status,
                )
                &&& final(self).event_count == old(self).event_count
                &&& final(self).dao == old(self).dao
                &&& final(self).groups == old(self).groups
                &&& final(self).event_groups == old(self).event_groups
                &&& final(self).gauges == old(self).gauges
                &&& final(self).recurrences == old(self).recurrences
                &&& final(self).hooks == old(self).hooks
            }),
    {
        let (status, t0, t1) = match get_id(&self.events, event_id) {
            Some(e) => (e.status, e.start_time, e.end_time),
            None => {
                return Err(ContractError::NoSuchEvent { id: event_id });
            },
        };
        let new_status = if start {
            if status != EventStatus::Upcoming || now.nanos < t0.nanos {
                return Err(ContractError::EventNotUpcoming { id: event_id });
            }
            EventStatus::Active
        } else {
            if status != EventStatus::Active || now.nanos < t1.nanos {
                return Err(ContractError::EventNotActive { id: event_id });
            }
            EventStatus::Completed
        };
        self.set_status(event_id, new_status);
        Ok((status, new_status))
    }

    /// Starts an upcoming event whose start time has come.
    pub fn execute_trigger_event_start(&mut self, now: Timestamp, event_id: u64) -> (r: Result<(EventStatus, EventStatus), ContractError>)
        requires
            old(self).wf(),
        ensures
            statuses_kept(old(self).event_map(), final(self).event_map()),
            final(self).wf(),
            old(self).trigger_error(now, event_id, true) matches Some(e) ==> r == Err::<
                (EventStatus, EventStatus),
                ContractError,
            >(e) && *final(self) == *old(self),
            old(self).trigger_error(now, event_id, true) is None ==> r == Ok::<
                (EventStatus, EventStatus),
                ContractError,
            >((EventStatus::Upcoming, EventStatus::Active)) && final(self).event_map()
                == old(self).event_map().insert(event_id, final(self).event_map()[event_id])
                && with_status(
                old(self).event_map()[event_id],
                final(self).event_map()[event_id],
                EventStatus::Active,
            ) && final(self).event_count == old(self).event_count && final(self).dao == old(
                self,
            ).dao && final(self).groups == old(self).groups && final(self).event_groups == old(
                self,
            ).event_groups && final(self).gauges == old(self).gauges && final(self).recurrences
                == old(self).recurrences && final(self).hooks == old(self).hooks,
    {
        self.execute_trigger(now, event_id, true)
    }

    /// Completes an active event whose end time has come.
    pub fn execute_trigger_event_end(&mut self, now: Timestamp, event_id: u64) -> (r: Result<(EventStatus, EventStatus), ContractError>)
        requires
            old(self).wf(),
        ensures
            statuses_kept(old(self).event_map(), final(self).event_map()),
            final(self).wf(),
            old(self).trigger_error(now, event_id, false) matches Some(e) ==> r == Err::<
                (EventStatus, EventStatus),
                ContractError,
            >(e) && *final(self) == *old(self),
            old(self).trigger_error(now, event_id, false) is None ==> r == Ok::<
                (EventStatus, EventStatus),
                ContractError,
            >((EventStatus::Active, EventStatus::Completed)) && final(self).event_map()
                == old(self).event_map().insert(event_id, final(self).event_map()[event_id])
                && with_status(
                old(self).event_map()[event_id],
                final(self).event_map()[event_id],
                EventStatus::Completed,
            ) && final(self).event_count == old(self).event_count && final(self).dao == old(
                self,
            ).dao && final(self).groups == old(self).groups && final(self).event_groups == old(
                self,
            ).event_groups && final(self).gauges == old(self).gauges && final(self).recurrences
                == old(self).recurrences && final(self).hooks == old(self).hooks,
    {
        self.execute_trigger(now, event_id, false)
    }

    /// The gauge messages of an event to send when it begins (`is_begin`) or ends, if it
    /// has any.
    pub fn collect_gauge_msgs(&self, event_id: u64, is_begin: bool) -> (r: Option<&Vec<CosmosMsg>>)
        requires
            self.wf(),
        ensures
            r == (if self.gauge_map().contains_key(event_id) && (if is_begin {
                self.gauge_map()[event_id].begin_msgs@.len() > 0
            } else {
                self.gauge_map()[event_id].end_msgs@.len() > 0
            }) {
                Some(
                    if is_begin {
                        &self.gauge_map()[event_id].begin_msgs
                    } else {
                        &self.gauge_map()[event_id].end_msgs
                    },
                )
            } else {
                None
            }),
    {
        match get_id(&self.gauges, event_id) {
            Some(g) => {
                let msgs = if is_begin {
                    &g.begin_msgs
                } else {
                    &g.end_msgs
                };
                if msgs.len() > 0 {
                    Some(msgs)
                } else {
                    None
                }
            },
            None => None,
        }
    }

    /// Why registering gauge messages is refused, if it is.
    pub open spec fn gauge_error(&self, sender: Seq<char>, event_id: u64, vouched: bool) -> Option<ContractError> {
        if !self.event_map().contains_key(event_id) {
            Some(ContractError::NoSuchEvent { id: event_id })
        } else if !self.authorized(sender, vouched) {
            Some(ContractError::Unauthorized {})
        } else {
            None
        }
    }

    /// Sets the messages sent when an event begins and ends.
    pub fn execute_register_event_gauges(
        &mut self,
        sender: String,
        event_id: u64,
        begin_msgs: Vec<CosmosMsg>,
        end_msgs: Vec<CosmosMsg>,
        vouched: bool,
    ) -> (r: Result<(), ContractError>)
        requires
            old(self).wf(),
        ensures
            statuses_kept(old(self).event_map(), final(self).event_map()),
            final(self).wf(),
            old(self).gauge_error(sender@, event_id, vouched) matches Some(e) ==> r == Err::<
                (),
                ContractError,
            >(e) && *final(self) == *old(self),
            old(self).gauge_error(sender@, event_id, vouched) is None ==> ({
                &&& r is Ok
                &&& final(self).gauge_map() == old(self).gauge_map().insert(
                    event_id,
                    EventGauge { event_id, begin_msgs, end_msgs },
                )
                &&& final(self).event_count == old(self).event_count
                &&& final(self).dao == old(self).dao
                &&& final(self).events == old(self).events
                &&& final(self).groups == old(self).groups
                &&& final(self).event_groups == old(self).event_groups
                &&& final(self).recurrences == old(self).recurrences
                &&& final(self).hooks == old(self).hooks
            }),
    {
        if find_id(&self.events, event_id).is_none() {
            return Err(ContractError::NoSuchEvent { id: event_id });
        }
        if !(sender == self.dao || vouched) {
            return Err(ContractError::Unauthorized {});
        }
        put_id(&mut self.gauges, event_id, EventGauge { event_id, begin_msgs, end_msgs });
        Ok(())
    }

    /// Registers a group; only the DAO may.
    pub fn execute_register_group(&mut self, sender: String, group: GroupInit) -> (r: Result<(), ContractError>)
        requires
            old(self).wf(),
        ensures
            statuses_kept(old(self).event_map(), final(self).event_map()),
            final(self).wf(),
            sender@ != old(self).dao@ ==> r == Err::<(), ContractError>(ContractError::Unauthorized {})
                && *final(self) == *old(self),
            sender@ == old(self).dao@ && old(self).group_map().contains_key(group.id@) ==> (r matches Err(
                ContractError::GroupAlreadyExists { id },
            ) && id == group.id && *final(self) == *old(self)),
            sender@ == old(self).dao@ && !old(self).group_map().contains_key(group.id@) ==> r is Ok
                && final(self).group_map() == old(self).group_map().insert(
                group.id@,
                final(self).group_map()[group.id@],
            ) && group_from(sender, group, final(self).group_map()[group.id@]),
            final(self).dao == old(self).dao,
            final(self).event_count == old(self).event_count,
            final(self).events == old(self).events,
            final(self).event_groups == old(self).event_groups,
            final(self).gauges == old(self).gauges,
            final(self).recurrences == old(self).recurrences,
            final(self).hooks == old(self).hooks,
    {
        self.assert_dao(&sender)?;
        self.save_group_from_init(&sender, group)
    }

    /// Replaces a group's suppliers, when given; only the DAO may.
    pub fn execute_update_group(
        &mut self,
        sender: String,
        group_id: String,
        suppliers: Option<Vec<EventSupplierInit>>,
    ) -> (r: Result<(), ContractError>)
        requires
            old(self).wf(),
        ensures
            statuses_kept(old(self).event_map(), final(self).event_map()),
            final(self).wf(),
            sender@ != old(self).dao@ ==> r == Err::<(), ContractError>(ContractError::Unauthorized {})
                && *final(self) == *old(self),
            sender@ == old(self).dao@ && !old(self).group_map().contains_key(group_id@) ==> r == Err::<
                (),
                ContractError,
            >(ContractError::NoSuchGroup { id: group_id }) && *final(self) == *old(self),
            sender@ == old(self).dao@ && old(self).group_map().contains_key(group_id@) ==> ({
                let o = old(self).group_map()[group_id@];
                let g = final(self).group_map()[group_id@];
                &&& r is Ok
                &&& final(self).group_map() == old(self).group_map().insert(group_id@, g)
                &&& (match suppliers {
                    Some(s) => suppliers_from(s@, g.suppliers@),
                    None => g.suppliers == o.suppliers,
                })
                &&& g.id == o.id && g.dao == o.dao && g.name == o.name
                &&& g.description == o.description && g.color == o.color
                &&& g.members == o.members
            }),
            final(self).dao == old(self).dao,
            final(self).event_count == old(self).event_count,
            final(self).events == old(self).events,
            final(self).event_groups == old(self).event_groups,
            final(self).gauges == old(self).gauges,
            final(self).recurrences == old(self).recurrences,
            final(self).hooks == old(self).hooks,
    {
        self.assert_dao(&sender)?;
        if find_key(&self.groups, &group_id).is_none() {
            return Err(ContractError::NoSuchGroup { id: group_id });
        }
        let mut group = match take_key(&mut self.groups, &group_id) {
            Some(g) => g,
            None => {
                return Err(ContractError::NoSuchGroup { id: group_id });
            },
        };
        if let Some(inits) = suppliers {
            group.suppliers = suppliers_of(&inits);
        }
        let ghost g = group;
        let ghost key = group_id@;
        set_key(&mut self.groups, group_id, group);
        proof {
            assert(self.group_map()[key] == g);
            assert(self.group_map() =~= old(self).group_map().insert(key, g));
        }
        Ok(())
    }

    /// Removes a group and its entries in the join table of groups and events; only the
    /// DAO may. Events keep naming it among their managing groups.
    pub fn execute_remove_group(&mut self, sender: String, group_id: String) -> (r: Result<(), ContractError>)
        requires
            old(self).wf(),
        ensures
            statuses_kept(old(self).event_map(), final(self).event_map()),
            final(self).wf(),
            sender@ != old(self).dao@ ==> r == Err::<(), ContractError>(ContractError::Unauthorized {})
                && *final(self) == *old(self),
            sender@ == old(self).dao@ && !old(self).group_map().contains_key(group_id@) ==> r == Err::<
                (),
                ContractError,
            >(ContractError::NoSuchGroup { id: group_id }) && *final(self) == *old(self),
            sender@ == old(self).dao@ && old(self).group_map().contains_key(group_id@) ==> ({
                &&& r is Ok
                &&& final(self).group_map() == old(self).group_map().remove(group_id@)
                &&& final(self).join_map().dom() == old(self).join_map().dom()
                &&& forall|k: u64| #[trigger]
                    final(self).join_map().contains_key(k) ==> final(self).join_map()[k]
                        == old(self).join_map()[k].filter(not_named(group_id@))
                &&& final(self).events == old(self).events
            }),
            final(self).dao == old(self).dao,
            final(self).event_count == old(self).event_count,
            final(self).gauges == old(self).gauges,
            final(self).recurrences == old(self).recurrences,
            final(self).hooks == old(self).hooks,
    {
        self.assert_dao(&sender)?;
        if find_key(&self.groups, &group_id).is_none() {
            return Err(ContractError::NoSuchGroup { id: group_id });
        }
        remove_key(&mut self.groups, &group_id);
        let ghost old_joins = self.event_groups@;
        let ghost pred = not_named(group_id@);
        let mut old_joins_vec: Vec<(u64, Vec<String>)> = Vec::new();
        std::mem::swap(&mut old_joins_vec, &mut self.event_groups);
        let mut joins: Vec<(u64, Vec<String>)> = Vec::new();
        let mut rest = old_joins_vec;
        // Rebuild the join table without the group, keeping its order.
        let mut rev: Vec<(u64, Vec<String>)> = Vec::new();
        while rest.len() > 0
            invariant
                rest@.len() + rev@.len() == old_joins.len(),
                rest@ == old_joins.take(rest@.len() as int),
                pred == not_named(group_id@),
                forall|j: int|
                    0 <= j < rev@.len() ==> #[trigger] rev@[j].0 == old_joins[old_joins.len() - 1 - j].0
                        && rev@[j].1@ == old_joins[old_joins.len() - 1 - j].1@.filter(pred),
            decreases rest.len(),
        {
            let (k, groups) = rest.pop().unwrap();
            let kept = without_string(&groups, &group_id);
            rev.push((k, kept));
            assert(rest@ =~= old_joins.take(rest@.len() as int));
        }
        while rev.len() > 0
            invariant
                joins@.len() + rev@.len() == old_joins.len(),
                forall|j: int|
                    0 <= j < rev@.len() ==> #[trigger] rev@[j].0 == old_joins[old_joins.len() - 1 - j].0
                        && rev@[j].1@ == old_joins[old_joins.len() - 1 - j].1@.filter(pred),
                forall|j: int|
                    0 <= j < joins@.len() ==> #[trigger] joins@[j].0 == old_joins[j].0
                        && joins@[j].1@ == old_joins[j].1@.filter(pred),
            decreases rev.len(),
        {
            let ghost last = rev@.len() - 1;
            let ghost at = joins@.len() as int;
            assert(rev@[last].0 == old_joins[at].0 && rev@[last].1@ == old_joins[at].1@.filter(pred));
            let ghost rev0 = rev@;
            let e = rev.pop().unwrap();
            assert forall|j: int| 0 <= j < rev@.len() implies #[trigger] rev@[j] == rev0[j] by {}
            joins.push(e);
            assert(joins@[at].0 == old_joins[at].0);
        }
        self.event_groups = joins;
        proof {
            assert(ascending(self.event_groups@));
            lemma_id_map_entries(self.event_groups@);
            lemma_id_map_entries(old_joins);
            assert forall|k: u64| #[trigger] self.join_map().contains_key(k) == old(self).join_map().contains_key(k) by {
                if self.join_map().contains_key(k) {
                    let j = choose|j: int| 0 <= j < self.event_groups@.len() && self.event_groups@[j].0 == k;
                    assert(old_joins[j].0 == k);
                }
                if old(self).join_map().contains_key(k) {
                    let j = choose|j: int| 0 <= j < old_joins.len() && old_joins[j].0 == k;
                    assert(self.event_groups@[j].0 == k);
                }
            }
            assert(self.join_map().dom() =~= old(self).join_map().dom());
            assert forall|k: u64| #[trigger] self.join_map().contains_key(k) implies self.join_map()[k]
                == old(self).join_map()[k].filter(pred) by {
                let j = choose|j: int| 0 <= j < self.event_groups@.len() && self.event_groups@[j].0 == k;
                assert(old_joins[j].0 == k);
            }
        }
        Ok(())
    }

    /// Registers a contract to notify of event changes; only the DAO may.
    pub fn execute_add_event_hook(&mut self, sender: String, address: String) -> (r: Result<(), ContractError>)
        requires
            old(self).wf(),
        ensures
            statuses_kept(old(self).event_map(), final(self).event_map()),
            final(self).wf(),
            sender@ != old(self).dao@ ==> r == Err::<(), ContractError>(ContractError::Unauthorized {})
                && *final(self) == *old(self),
            sender@ == old(self).dao@ && hook_view(old(self).hooks@).contains(address@) ==> r == Err::<
                (),
                ContractError,
            >(ContractError::HookError(HookError::HookAlreadyRegistered {})) && *final(self) == *old(self),
            sender@ == old(self).dao@ && !hook_view(old(self).hooks@).contains(address@) ==> r is Ok
                && final(self).hooks@ == old(self).hooks@.push(address),
            final(self).dao == old(self).dao,
            final(self).event_count == old(self).event_count,
            final(self).events == old(self).events,
            final(self).groups == old(self).groups,
            final(self).event_groups == old(self).event_groups,
            final(self).gauges == old(self).gauges,
            final(self).recurrences == old(self).recurrences,
    {
        self.assert_dao(&sender)?;
        match add_hook(&mut self.hooks, address) {
            Ok(()) => Ok(()),
            Err(e) => Err(ContractError::HookError(e)),
        }
    }

    /// Unregisters a contract notified of event changes; only the DAO may.
    pub fn execute_remove_event_hook(&mut self, sender: String, address: String) -> (r: Result<(), ContractError>)
        requires
            old(self).wf(),
        ensures
            statuses_kept(old(self).event_map(), final(self).event_map()),
            final(self).wf(),
            sender@ != old(self).dao@ ==> r == Err::<(), ContractError>(ContractError::Unauthorized {})
                && *final(self) == *old(self),
            sender@ == old(self).dao@ && !hook_view(old(self).hooks@).contains(address@) ==> r == Err::<
                (),
                ContractError,
            >(ContractError::HookError(HookError::HookNotRegistered {})) && *final(self) == *old(self),
            sender@ == old(self).dao@ && hook_view(old(self).hooks@).contains(address@) ==> r is Ok
                && exists|i: int|
                0 <= i < old(self).hooks@.len() && old(self).hooks@[i]@ == address@ && (forall|j: int|
                    0 <= j < i ==> old(self).hooks@[j]@ != address@) && final(self).hooks@ == old(
                    self,
                ).hooks@.remove(i),
            final(self).dao == old(self).dao,
            final(self).event_count == old(self).event_count,
            final(self).events == old(self).events,
            final(self).groups == old(self).groups,
            final(self).event_groups == old(self).event_groups,
            final(self).gauges == old(self).gauges,
            final(self).recurrences == old(self).recurrences,
    {
        self.assert_dao(&sender)?;
        match remove_hook(&mut self.hooks, &address) {
            Ok(()) => Ok(()),
            Err(e) => Err(ContractError::HookError(e)),
        }
    }

    /// Answers the reply to a submessage: a reply from a failed event hook (an id from
    /// `FAILED_EVENT_HOOK_REPLY_ID_BASE` on) unregisters that hook and gives its address
    /// and index; any other id is refused.
    pub fn reply(&mut self, id: u64) -> (r: Result<(String, u64), ContractError>)
        requires
            old(self).wf(),
            id >= FAILED_EVENT_HOOK_REPLY_ID_BASE ==> id - FAILED_EVENT_HOOK_REPLY_ID_BASE < old(
                self,
            ).hooks@.len(),
        ensures
            final(self).wf(),
            id < FAILED_EVENT_HOOK_REPLY_ID_BASE ==> r == Err::<(String, u64), ContractError>(
                ContractError::InvalidReplyID { id },
            ) && *final(self) == *old(self),
            id >= FAILED_EVENT_HOOK_REPLY_ID_BASE ==> (r matches Ok((addr, idx)) && idx == id
                - FAILED_EVENT_HOOK_REPLY_ID_BASE && addr == old(self).hooks@[idx as int]
                && final(self).hooks@ == old(self).hooks@.remove(idx as int) && *final(self)
                == (CalendarState { hooks: final(self).hooks, ..*old(self) })),
    {
        if id >= FAILED_EVENT_HOOK_REPLY_ID_BASE {
            let idx = id - FAILED_EVENT_HOOK_REPLY_ID_BASE;
            let addr = remove_hook_by_index(&mut self.hooks, idx);
            Ok((addr, idx))
        } else {
            Err(ContractError::InvalidReplyID { id })
        }
    }
}

// ═══════════════════════════ Scans over events ═══════════════════════════

/// An event's place in the start-time index: its start in whole seconds, then its id.
pub open spec fn start_key<T>(e: Event<T>) -> (u64, u64) {
    (e.start_time.secs() as u64, e.id)
}

/// Strict order of index places: by start second, then by id.
pub open spec fn key_lt(a: (u64, u64), b: (u64, u64)) -> bool {
    a.0 < b.0 || (a.0 == b.0 && a.1 < b.1)
}

/// Lower end of a walk over the start-time index.
#[derive(Clone, Copy, Debug, PartialEq, Eq, Structural)]
pub enum KeyBound {
    Inclusive(u64, u64),
    Exclusive(u64, u64),
}

pub open spec fn above(lo: Option<KeyBound>, k: (u64, u64)) -> bool {
    match lo {
        None => true,
        Some(KeyBound::Inclusive(a, b)) => !key_lt(k, (a, b)),
        Some(KeyBound::Exclusive(a, b)) => key_lt((a, b), k),
    }
}

/// Which events a walk over the start-time index keeps: those starting no later than
/// `upper` seconds, if given, and, with `open_only`, those upcoming or active.
#[derive(Clone, Copy, Debug)]
pub struct StartFilter {
    pub upper: Option<u64>,
    pub open_only: bool,
}

pub open spec fn passes<T>(f: StartFilter, e: Event<T>) -> bool {
    &&& (f.upper matches Some(u) ==> e.start_time.secs() <= u)
    &&& (f.open_only ==> e.status == EventStatus::Upcoming || e.status == EventStatus::Active)
}

pub open spec fn in_walk<T>(m: Map<u64, Event<T>>, lo: Option<KeyBound>, f: StartFilter, k: u64) -> bool {
    m.contains_key(k) && above(lo, start_key(m[k])) && passes(f, m[k])
}

/// The kept event with the least index place above `lo`, if any.
#[verifier::opaque]
pub open spec fn first_in_walk<T>(m: Map<u64, Event<T>>, lo: Option<KeyBound>, f: StartFilter) -> Option<u64> {
    if exists|k: u64|
        #[trigger] in_walk(m, lo, f, k) && forall|j: u64|
            #[trigger] in_walk(m, lo, f, j) ==> !key_lt(start_key(m[j]), start_key(m[k])) {
        Some(
            choose|k: u64|
                #[trigger] in_walk(m, lo, f, k) && forall|j: u64|
                    #[trigger] in_walk(m, lo, f, j) ==> !key_lt(start_key(m[j]), start_key(m[k])),
        )
    } else {
        None
    }
}

/// The ids of the first `n` kept events above `lo`, in index order.
pub open spec fn walk<T>(m: Map<u64, Event<T>>, lo: Option<KeyBound>, f: StartFilter, n: nat) -> Seq<u64>
    decreases n,
{
    if n == 0 {
        seq![]
    } else {
        match first_in_walk(m, lo, f) {
            None => seq![],
            Some(k) => seq![k] + walk(
                m,
                Some(KeyBound::Exclusive(start_key(m[k]).0, start_key(m[k]).1)),
                f,
                (n - 1) as nat,
            ),
        }
    }
}

/// In a map whose events carry their own keys as ids, a least kept event is the first.
pub proof fn lemma_first_in_walk<T>(m: Map<u64, Event<T>>, lo: Option<KeyBound>, f: StartFilter, k: u64)
    requires
        forall|j: u64| #[trigger] m.contains_key(j) ==> m[j].id == j,
        in_walk(m, lo, f, k),
        forall|j: u64| #[trigger] in_walk(m, lo, f, j) ==> !key_lt(start_key(m[j]), start_key(m[k])),
    ensures
        first_in_walk(m, lo, f) == Some(k),
{
    reveal(first_in_walk);
    let c = choose|c: u64|
        #[trigger] in_walk(m, lo, f, c) && forall|j: u64|
            #[trigger] in_walk(m, lo, f, j) ==> !key_lt(start_key(m[j]), start_key(m[c]));
    assert(in_walk(m, lo, f, c));
    assert(!key_lt(start_key(m[c]), start_key(m[k])));
    assert(!key_lt(start_key(m[k]), start_key(m[c])));
    assert(m[c].id == c && m[k].id == k);
}

/// The ids in ascending order of the events after `after` (all, if none), with status
/// `status` when one is given, at most `n` of them.
pub open spec fn id_walk<T>(evs: Seq<(u64, Event<T>)>, after: Option<u64>, status: Option<EventStatus>, n: nat) -> Seq<u64>
    decreases evs.len(),
{
    if evs.len() == 0 || n == 0 {
        seq![]
    } else {
        let e = evs[0];
        let keep = (after matches Some(a) ==> a < e.0) && (status matches Some(s) ==> e.1.status
            == s);
        if keep {
            seq![e.0] + id_walk(evs.drop_first(), after, status, (n - 1) as nat)
        } else {
            id_walk(evs.drop_first(), after, status, n)
        }
    }
}

/// The ids in descending order of the events before `before` (all, if none), with status
/// `status` when one is given, at most `n` of them.
pub open spec fn id_walk_back<T>(evs: Seq<(u64, Event<T>)>, before: Option<u64>, status: Option<EventStatus>, n: nat) -> Seq<u64>
    decreases evs.len(),
{
    if evs.len() == 0 || n == 0 {
        seq![]
    } else {
        let e = evs.last();
        let keep = (before matches Some(b) ==> e.0 < b) && (status matches Some(s) ==> e.1.status
            == s);
        if keep {
            seq![e.0] + id_walk_back(evs.drop_last(), before, status, (n - 1) as nat)
        } else {
            id_walk_back(evs.drop_last(), before, status, n)
        }
    }
}

fn key_of<T>(e: &Event<T>) -> (k: (u64, u64))
    ensures
        k == start_key(*e),
{
    (e.start_time.seconds(), e.id)
}

fn lt(a: (u64, u64), b: (u64, u64)) -> (r: bool)
    ensures
        r == key_lt(a, b),
{
    a.0 < b.0 || (a.0 == b.0 && a.1 < b.1)
}

fn is_above(lo: Option<KeyBound>, k: (u64, u64)) -> (r: bool)
    ensures
        r == above(lo, k),
{
    match lo {
        None => true,
        Some(KeyBound::Inclusive(a, b)) => !lt(k, (a, b)),
        Some(KeyBound::Exclusive(a, b)) => lt((a, b), k),
    }
}

fn does_pass<T>(f: StartFilter, e: &Event<T>) -> (r: bool)
    ensures
        r == passes(f, *e),
{
    let in_range = match f.upper {
        Some(u) => e.start_time.seconds() <= u,
        None => true,
    };
    in_range && (!f.open_only || e.status == EventStatus::Upcoming || e.status == EventStatus::Active)
}

impl<T> CalendarState<T> {
    /// The event `id`, if it exists.
    pub fn query_event(&self, id: u64) -> (r: Option<&Event<T>>)
        requires
            self.wf(),
        ensures
            r == (if self.event_map().contains_key(id) {
                Some(&self.event_map()[id])
            } else {
                None
            }),
    {
        get_id(&self.events, id)
    }

    /// The kept event with the least index place above `lo`, if any.
    fn first_above(&self, lo: Option<KeyBound>, f: StartFilter) -> (r: Option<u64>)
        requires
            self.wf(),
        ensures
            r == first_in_walk(self.event_map(), lo, f),
            r matches Some(k) ==> in_walk(self.event_map(), lo, f, k),
    {
        let ghost m = self.event_map();
        proof {
            lemma_id_map_entries(self.events@);
        }
        let mut best: Option<usize> = None;
        let mut i: usize = 0;
        while i < self.events.len()
            invariant
                i <= self.events@.len(),
                self.wf(),
                m == self.event_map(),
                forall|j: int| 0 <= j < self.events@.len() ==> #[trigger] m.contains_key(self.events@[j].0)
                    && m[self.events@[j].0] == self.events@[j].1,
                best matches Some(b) ==> b < i && in_walk(m, lo, f, self.events@[b as int].0),
                forall|j: int|
                    0 <= j < i && #[trigger] in_walk(m, lo, f, self.events@[j].0) ==> (best matches Some(b)
                        && !key_lt(
                        start_key(self.events@[j].1),
                        start_key(self.events@[b as int].1),
                    )),
            decreases self.events.len() - i,
        {
            let e = &self.events[i].1;
            if is_above(lo, key_of(e)) && does_pass(f, e) {
                let better = match best {
                    None => true,
                    Some(b) => lt(key_of(e), key_of(&self.events[b].1)),
                };
                if better {
                    best = Some(i);
                }
            }
            i += 1;
        }
        match best {
            None => {
                proof {
                    reveal(first_in_walk);
                    assert forall|k: u64| !(#[trigger] in_walk(m, lo, f, k)) by {
                        if in_walk(m, lo, f, k) {
                            let j = choose|j: int| 0 <= j < self.events@.len() && self.events@[j].0 == k;
                            assert(in_walk(m, lo, f, self.events@[j].0));
                        }
                    }
                }
                None
            },
            Some(b) => {
                let k = self.events[b].0;
                proof {
                    assert forall|j: u64| #[trigger] in_walk(m, lo, f, j) implies !key_lt(
                        start_key(m[j]),
                        start_key(m[k]),
                    ) by {
                        let x = choose|x: int| 0 <= x < self.events@.len() && self.events@[x].0 == j;
                        assert(in_walk(m, lo, f, self.events@[x].0));
                    }
                    lemma_first_in_walk(m, lo, f, k);
                }
                Some(k)
            },
        }
    }

    /// The ids of the first `n` kept events above `lo`, in start-time index order.
    pub fn walk_by_start(&self, lo: Option<KeyBound>, f: StartFilter, n: usize) -> (r: Vec<u64>)
        requires
            self.wf(),
        ensures
            r@ == walk(self.event_map(), lo, f, n as nat),
    {
        let ghost m = self.event_map();
        let mut out: Vec<u64> = Vec::new();
        let mut cur = lo;
        let mut left = n;
        while left > 0
            invariant
                self.wf(),
                m == self.event_map(),
                out@ + walk(m, cur, f, left as nat) == walk(m, lo, f, n as nat),
            decreases left,
        {
            match self.first_above(cur, f) {
                None => {
                    assert(walk(m, cur, f, left as nat) =~= Seq::<u64>::empty());
                    assert(walk(m, cur, f, 0) =~= Seq::<u64>::empty());
                    left = 0;
                },
                Some(k) => {
                    let ghost prev = cur;
                    let e = self.query_event(k).unwrap();
                    let key = key_of(e);
                    out.push(k);
                    cur = Some(KeyBound::Exclusive(key.0, key.1));
                    assert(walk(m, prev, f, left as nat) =~= seq![k] + walk(
                        m,
                        cur,
                        f,
                        (left - 1) as nat,
                    ));
                    assert(out@ + walk(m, cur, f, (left - 1) as nat) =~= walk(m, lo, f, n as nat));
                    left -= 1;
                },
            }
        }
        assert(walk(m, cur, f, left as nat) =~= Seq::<u64>::empty());
        assert(out@ =~= walk(m, lo, f, n as nat));
        out
    }

    /// The ids in ascending order of the events after `after`, with status `status` when
    /// given, at most `n` of them.
    pub fn walk_by_id(&self, after: Option<u64>, status: Option<EventStatus>, n: usize) -> (r: Vec<u64>)
        requires
            self.wf(),
        ensures
            r@ == id_walk(self.events@, after, status, n as nat),
    {
        let ghost evs = self.events@;
        let mut out: Vec<u64> = Vec::new();
        let mut i: usize = 0;
        assert(evs.skip(0) =~= evs);
        while i < self.events.len() && out.len() < n
            invariant
                i <= evs.len(),
                evs == self.events@,
                out@.len() <= n,
                out@ + id_walk(evs.skip(i as int), after, status, (n - out@.len()) as nat) == id_walk(
                    evs,
                    after,
                    status,
                    n as nat,
                ),
            decreases evs.len() - i,
        {
            let e = &self.events[i];
            let keep = (match after {
                Some(a) => a < e.0,
                None => true,
            }) && (match status {
                Some(s) => e.1.status == s,
                None => true,
            });
            assert(evs.skip(i as int).drop_first() =~= evs.skip(i + 1));
            if keep {
                out.push(e.0);
            }
            i += 1;
        }
        proof {
            if i == evs.len() {
                assert(evs.skip(i as int).len() == 0);
            }
        }
        assert(out@ =~= id_walk(evs, after, status, n as nat));
        out
    }

    /// The ids in descending order of the events before `before`, with status `status`
    /// when given, at most `n` of them.
    pub fn walk_by_id_back(&self, before: Option<u64>, status: Option<EventStatus>, n: usize) -> (r: Vec<u64>)
        requires
            self.wf(),
        ensures
            r@ == id_walk_back(self.events@, before, status, n as nat),
    {
        let ghost evs = self.events@;
        let mut out: Vec<u64> = Vec::new();
        let mut i: usize = self.events.len();
        assert(evs.take(evs.len() as int) =~= evs);
        while i > 0 && out.len() < n
            invariant
                i <= evs.len(),
                evs == self.events@,
                out@.len() <= n,
                out@ + id_walk_back(evs.take(i as int), before, status, (n - out@.len()) as nat)
                    == id_walk_back(evs, before, status, n as nat),
            decreases i,
        {
            let e = &self.events[i - 1];
            let keep = (match before {
                Some(b) => e.0 < b,
                None => true,
            }) && (match status {
                Some(s) => e.1.status == s,
                None => true,
            });
            assert(evs.take(i as int).drop_last() =~= evs.take(i - 1));
            if keep {
                out.push(e.0);
            }
            i -= 1;
        }
        proof {
            if i == 0 {
                assert(evs.take(0).len() == 0);
            }
        }
        assert(evs.take(evs.len() as int) =~= evs);
        assert(out@ =~= id_walk_back(evs, before, status, n as nat));
        out
    }
}

// ═══════════════════════════ Listing by groups ═══════════════════════════

/// `s` is among the strings of `v`.
pub open spec fn names(v: Seq<String>, s: Seq<char>) -> bool {
    exists|i: int| 0 <= i < v.len() && #[trigger] v[i]@ == s
}

/// The first `n` (at most) ids, ascending, after `after` of the join-table entries
/// of group `g`.
pub open spec fn group_entries(joins: Seq<(u64, Vec<String>)>, g: Seq<char>, after: Option<u64>, n: nat) -> Seq<u64>
    decreases joins.len(),
{
    if joins.len() == 0 || n == 0 {
        seq![]
    } else {
        let e = joins[0];
        if names(e.1@, g) && (after matches Some(a) ==> a < e.0) {
            seq![e.0] + group_entries(joins.drop_first(), g, after, (n - 1) as nat)
        } else {
            group_entries(joins.drop_first(), g, after, n)
        }
    }
}

/// The state of a listing by groups: ids seen, ids listed, room left.
pub struct GroupListing {
    pub seen: Set<u64>,
    pub listed: Seq<u64>,
    pub room: nat,
}

/// Takes the entries `es` in order: an id not seen before is marked seen and, if its
/// event exists, listed; the walk stops as soon as the room is used up.
pub open spec fn take_entries<T>(es: Seq<u64>, evs: Map<u64, Event<T>>, st: GroupListing) -> GroupListing
    decreases es.len(),
{
    if es.len() == 0 || st.room == 0 {
        st
    } else {
        let e = es[0];
        let next = if st.seen.contains(e) {
            st
        } else if evs.contains_key(e) {
            GroupListing { seen: st.seen.insert(e), listed: st.listed.push(e), room: (st.room - 1) as nat }
        } else {
            GroupListing { seen: st.seen.insert(e), listed: st.listed, room: st.room }
        };
        take_entries(es.drop_first(), evs, next)
    }
}

/// Takes, group by group, as many entries of each as there is room left when its turn
/// comes.
pub open spec fn take_groups<T>(
    groups: Seq<String>,
    joins: Seq<(u64, Vec<String>)>,
    evs: Map<u64, Event<T>>,
    after: Option<u64>,
    st: GroupListing,
) -> GroupListing
    decreases groups.len(),
{
    if groups.len() == 0 || st.room == 0 {
        st
    } else {
        let es = group_entries(joins, groups[0]@, after, st.room);
        take_groups(groups.drop_first(), joins, evs, after, take_entries(es, evs, st))
    }
}

/// The ids of the events of `evs` that are in `ids`, ascending.
pub open spec fn ids_in<T>(evs: Seq<(u64, Event<T>)>, ids: Set<u64>) -> Seq<u64>
    decreases evs.len(),
{
    if evs.len() == 0 {
        seq![]
    } else if ids.contains(evs[0].0) {
        seq![evs[0].0] + ids_in(evs.drop_first(), ids)
    } else {
        ids_in(evs.drop_first(), ids)
    }
}

proof fn lemma_push_to_set(s: Seq<u64>, x: u64)
    ensures
        s.push(x).to_set() == s.to_set().insert(x),
{
    assert forall|a: u64| #[trigger] s.push(x).to_set().contains(a) == s.to_set().insert(x).contains(a) by {
        if s.contains(a) {
            let j = choose|j: int| 0 <= j < s.len() && s[j] == a;
            assert(s.push(x)[j] == a);
        }
        if a == x {
            assert(s.push(x)[s.len() as int] == x);
        }
        if s.push(x).contains(a) {
            let j = choose|j: int| 0 <= j < s.push(x).len() && s.push(x)[j] == a;
            if j < s.len() {
                assert(s[j] == a);
            }
        }
    }
    assert(s.push(x).to_set() =~= s.to_set().insert(x));
}

fn names_exec(v: &Vec<String>, s: &String) -> (r: bool)
    ensures
        r == names(v@, s@),
{
    let mut i: usize = 0;
    while i < v.len()
        invariant
            i <= v@.len(),
            forall|j: int| 0 <= j < i ==> v@[j]@ != s@,
        decreases v.len() - i,
    {
        if v[i] == *s {
            return true;
        }
        i += 1;
    }
    false
}

fn contains_id(v: &Vec<u64>, x: u64) -> (r: bool)
    ensures
        r == v@.contains(x),
{
    let mut i: usize = 0;
    while i < v.len()
        invariant
            i <= v@.len(),
            forall|j: int| 0 <= j < i ==> v@[j] != x,
        decreases v.len() - i,
    {
        if v[i] == x {
            proof {
                assert(v@[i as int] == x);
            }
            return true;
        }
        i += 1;
    }
    false
}

impl<T> CalendarState<T> {
    /// The first `n` ids, ascending, after `after` of the join-table entries of group `g`.
    fn entries_of_group(&self, g: &String, after: Option<u64>, n: usize) -> (r: Vec<u64>)
        ensures
            r@ == group_entries(self.event_groups@, g@, after, n as nat),
    {
        let ghost js = self.event_groups@;
        let mut out: Vec<u64> = Vec::new();
        let mut i: usize = 0;
        assert(js.skip(0) =~= js);
        while i < self.event_groups.len() && out.len() < n
            invariant
                i <= js.len(),
                js == self.event_groups@,
                out@.len() <= n,
                out@ + group_entries(js.skip(i as int), g@, after, (n - out@.len()) as nat)
                    == group_entries(js, g@, after, n as nat),
            decreases js.len() - i,
        {
            let e = &self.event_groups[i];
            let keep = names_exec(&e.1, g) && match after {
                Some(a) => a < e.0,
                None => true,
            };
            assert(js.skip(i as int).drop_first() =~= js.skip(i + 1));
            if keep {
                out.push(e.0);
            }
            i += 1;
        }
        proof {
            if i == js.len() {
                assert(js.skip(i as int).len() == 0);
            }
        }
        assert(out@ =~= group_entries(js, g@, after, n as nat));
        out
    }

    /// Events listed by groups: for each group in turn, its join-table entries after
    /// `start_after` are taken (as many as there is room left), each event once; the
    /// events found are listed by ascending id, at most `limit` of them.
    pub fn events_by_groups(&self, groups: &Vec<String>, start_after: Option<u64>, limit: usize) -> (r: Vec<u64>)
        requires
            self.wf(),
        ensures
            r@ == ids_in(
                self.events@,
                take_groups(
                    groups@,
                    self.event_groups@,
                    self.event_map(),
                    start_after,
                    GroupListing { seen: Set::empty(), listed: seq![], room: limit as nat },
                ).listed.to_set(),
            ),
    {
        let ghost m = self.event_map();
        let ghost js = self.event_groups@;
        let ghost st0 = GroupListing { seen: Set::empty(), listed: seq![], room: limit as nat };
        let ghost goal = take_groups(groups@, js, m, start_after, st0);
        let mut seen: Vec<u64> = Vec::new();
        let mut listed: Vec<u64> = Vec::new();
        let mut room = limit;
        let mut gi: usize = 0;
        assert(groups@.skip(0) =~= groups@);
        assert(seen@.to_set() =~= Set::<u64>::empty());
        while gi < groups.len() && room > 0
            invariant
                self.wf(),
                m == self.event_map(),
                js == self.event_groups@,
                gi <= groups@.len(),
                goal == take_groups(
                    groups@.skip(gi as int),
                    js,
                    m,
                    start_after,
                    GroupListing { seen: seen@.to_set(), listed: listed@, room: room as nat },
                ),
                goal == take_groups(groups@, js, m, start_after, st0),
            decreases groups.len() - gi,
        {
            let es = self.entries_of_group(&groups[gi], start_after, room);
            let ghost st_g = GroupListing { seen: seen@.to_set(), listed: listed@, room: room as nat };
            let ghost after_g = take_entries(es@, m, st_g);
            assert(groups@.skip(gi as int).drop_first() =~= groups@.skip(gi + 1));
            assert(groups@.skip(gi as int)[0] == groups@[gi as int]);
            let mut i: usize = 0;
            assert(es@.skip(0) =~= es@);
            while i < es.len() && room > 0
                invariant
                    self.wf(),
                    m == self.event_map(),
                    i <= es@.len(),
                    after_g == take_entries(
                        es@.skip(i as int),
                        m,
                        GroupListing { seen: seen@.to_set(), listed: listed@, room: room as nat },
                    ),
                decreases es.len() - i,
            {
                let e = es[i];
                assert(es@.skip(i as int).drop_first() =~= es@.skip(i + 1));
                assert(es@.skip(i as int)[0] == e);
                if !contains_id(&seen, e) {
                    let ghost seen_before = seen@;
                    seen.push(e);
                    proof {
                        lemma_push_to_set(seen_before, e);
                    }
                    if self.query_event(e).is_some() {
                        listed.push(e);
                        room -= 1;
                    }
                }
                i += 1;
            }
            proof {
                if i == es@.len() {
                    assert(es@.skip(i as int).len() == 0);
                }
            }
            gi += 1;
        }
        proof {
            if gi == groups@.len() {
                assert(groups@.skip(gi as int).len() == 0);
            }
        }
        assert(goal.listed == listed@);
        let ghost want = listed@.to_set();
        let mut out: Vec<u64> = Vec::new();
        let mut k: usize = 0;
        let ghost evs = self.events@;
        assert(evs.skip(0) =~= evs);
        while k < self.events.len()
            invariant
                k <= evs.len(),
                evs == self.events@,
                want == listed@.to_set(),
                out@ + ids_in(evs.skip(k as int), want) == ids_in(evs, want),
            decreases evs.len() - k,
        {
            let id = self.events[k].0;
            assert(evs.skip(k as int).drop_first() =~= evs.skip(k + 1));
            if contains_id(&listed, id) {
                out.push(id);
            }
            k += 1;
        }
        assert(evs.skip(k as int).len() == 0);
        assert(out@ =~= ids_in(evs, want));
        out
    }
}

// ═══════════════════════════ Pruning and queries ═══════════════════════════

/// Events are kept this many seconds (365 days) after they start.
pub const RETENTION_SECONDS: u64 = 31_536_000;

pub const RENEW_DEFAULT_LIMIT: u32 = 100;

pub const AGENDA_DEFAULT_LIMIT: u32 = 10;

pub const AGENDA_MAX_LIMIT: u32 = 50;

/// Events starting at or before this second are old at time `now`.
pub open spec fn renew_cutoff(now: Timestamp) -> u64 {
    if now.secs() >= RETENTION_SECONDS {
        (now.secs() - RETENTION_SECONDS) as u64
    } else {
        0
    }
}

/// A listing filter of events.
#[derive(Debug)]
pub enum EventFilter {
    ByGroups { groups: Vec<String> },
    ByTimeRange { start_after: Option<Timestamp>, end_before: Option<Timestamp> },
    ByStatus { status: EventStatus },
}

/// Lower end of a listing by start time from second `from_secs` on (if given), after
/// the event `start_after` (if given) among those starting in that second.
pub open spec fn range_bound(from: Option<Timestamp>, start_after: Option<u64>) -> Option<KeyBound> {
    match (from, start_after) {
        (Some(t), Some(a)) => Some(KeyBound::Exclusive(t.secs() as u64, a)),
        (Some(t), None) => Some(KeyBound::Inclusive(t.secs() as u64, 0)),
        (None, Some(a)) => Some(KeyBound::Exclusive(0, a)),
        (None, None) => None,
    }
}

/// The page size of an agenda: the requested limit (10 when none is given), at most 50;
/// an agenda lists at least one event when there is one.
pub open spec fn agenda_size(limit: Option<u32>) -> nat {
    let l = match limit {
        Some(l) => l as int,
        None => AGENDA_DEFAULT_LIMIT as int,
    };
    let l = if l < AGENDA_MAX_LIMIT { l } else { AGENDA_MAX_LIMIT as int };
    if l == 0 { 1 } else { l as nat }
}

/// The groups among `ids` that exist, in order.
pub open spec fn present(groups: Map<Seq<char>, Group>, ids: Seq<String>) -> Seq<String>
    decreases ids.len(),
{
    if ids.len() == 0 {
        seq![]
    } else {
        let rest = present(groups, ids.drop_last());
        if groups.contains_key(ids.last()@) {
            rest.push(ids.last())
        } else {
            rest
        }
    }
}

/// For each of the listed groups that exists and has gauge suppliers, in order: its id
/// and the contracts of its gauges.
pub open spec fn gauge_summary(groups: Map<Seq<char>, Group>, ids: Seq<String>) -> Seq<(String, Seq<String>)>
    decreases ids.len(),
{
    if ids.len() == 0 {
        seq![]
    } else {
        let rest = gauge_summary(groups, ids.drop_last());
        let gid = ids.last();
        if groups.contains_key(gid@) && contracts_of(
            groups[gid@].suppliers@,
            EventSupplierType::Gauge,
        ).len() > 0 {
            rest.push((gid, contracts_of(groups[gid@].suppliers@, EventSupplierType::Gauge)))
        } else {
            rest
        }
    }
}

impl<T> CalendarState<T> {
    /// The events pruned at time `now`: the oldest (by start time, then id), at most
    /// `limit` (100 when none is given) of those that started a year or more ago.
    pub open spec fn renew_ids(&self, now: Timestamp, limit: Option<u32>) -> Seq<u64> {
        walk(
            self.event_map(),
            None,
            StartFilter { upper: Some(renew_cutoff(now)), open_only: false },
            (match limit {
                Some(l) => l,
                None => RENEW_DEFAULT_LIMIT,
            }) as nat,
        )
    }

    /// Prunes old events, with their join-table entries, gauges and recurrence rules.
    /// Anyone may. Hands back how many events were pruned.
    pub fn execute_renew_calendar(&mut self, now: Timestamp, limit: Option<u32>) -> (r: usize)
        requires
            old(self).wf(),
        ensures
            statuses_kept(old(self).event_map(), final(self).event_map()),
            final(self).wf(),
            r == old(self).renew_ids(now, limit).len(),
            final(self).event_map() == old(self).event_map().remove_keys(
                old(self).renew_ids(now, limit).to_set(),
            ),
            final(self).join_map() == old(self).join_map().remove_keys(
                old(self).renew_ids(now, limit).to_set(),
            ),
            final(self).gauge_map() == old(self).gauge_map().remove_keys(
                old(self).renew_ids(now, limit).to_set(),
            ),
            final(self).recurrence_map() == old(self).recurrence_map().remove_keys(
                old(self).renew_ids(now, limit).to_set(),
            ),
            final(self).event_count == old(self).event_count,
            final(self).dao == old(self).dao,
            final(self).groups == old(self).groups,
            final(self).hooks == old(self).hooks,
    {
        let n = match limit {
            Some(l) => l,
            None => RENEW_DEFAULT_LIMIT,
        } as usize;
        let secs = now.seconds();
        let cutoff = if secs >= RETENTION_SECONDS {
            secs - RETENTION_SECONDS
        } else {
            0
        };
        let ids = self.walk_by_start(None, StartFilter { upper: Some(cutoff), open_only: false }, n);
        let ghost all = ids@;
        let mut i: usize = 0;
        assert(all.take(0).to_set() =~= Set::<u64>::empty());
        assert(self.event_map() =~= self.event_map().remove_keys(Set::<u64>::empty()));
        assert(self.join_map() =~= self.join_map().remove_keys(Set::<u64>::empty()));
        assert(self.gauge_map() =~= self.gauge_map().remove_keys(Set::<u64>::empty()));
        assert(self.recurrence_map() =~= self.recurrence_map().remove_keys(Set::<u64>::empty()));
        while i < ids.len()
            invariant
                i <= all.len(),
                all == ids@,
                self.wf(),
                self.event_count == old(self).event_count,
                self.dao == old(self).dao,
                self.groups == old(self).groups,
                self.hooks == old(self).hooks,
                self.event_map() == old(self).event_map().remove_keys(all.take(i as int).to_set()),
                self.join_map() == old(self).join_map().remove_keys(all.take(i as int).to_set()),
                self.gauge_map() == old(self).gauge_map().remove_keys(all.take(i as int).to_set()),
                self.recurrence_map() == old(self).recurrence_map().remove_keys(
                    all.take(i as int).to_set(),
                ),
            decreases all.len() - i,
        {
            let id = ids[i];
            let ghost before = *self;
            let ghost done = all.take(i as int).to_set();
            remove_id(&mut self.events, id);
            remove_id(&mut self.event_groups, id);
            remove_id(&mut self.gauges, id);
            remove_id(&mut self.recurrences, id);
            proof {
                assert(all.take(i + 1) =~= all.take(i as int).push(id));
                lemma_push_to_set(all.take(i as int), id);
                assert(self.event_map() =~= old(self).event_map().remove_keys(done.insert(id)));
                assert(self.join_map() =~= before.join_map().remove(id));
                assert(self.join_map() =~= old(self).join_map().remove_keys(done.insert(id)));
                assert(self.gauge_map() =~= old(self).gauge_map().remove_keys(done.insert(id)));
                assert(self.recurrence_map() =~= old(self).recurrence_map().remove_keys(
                    done.insert(id),
                ));
                assert forall|k: u64| #[trigger] self.event_map().contains_key(k) implies self.event_map()[k].id
                    == k && k <= self.event_count by {
                    assert(before.event_map().contains_key(k));
                }
            }
            i += 1;
        }
        assert(all.take(i as int) =~= all);
        ids.len()
    }

    /// The ids of the events listed, in order: all events, or those of the filter, after
    /// `start_after`, at most `limit` (30 when none is given, at most 100) of them.
    pub open spec fn list_events_spec(&self, filter: Option<EventFilter>, start_after: Option<u64>, limit: Option<u32>) -> Seq<u64> {
        let n = clamped(limit) as nat;
        match filter {
            None => id_walk(self.events@, start_after, None, n),
            Some(EventFilter::ByStatus { status }) => id_walk(self.events@, start_after, Some(status), n),
            Some(EventFilter::ByTimeRange { start_after: from, end_before }) => walk(
                self.event_map(),
                range_bound(from, start_after),
                StartFilter {
                    upper: match end_before {
                        Some(t) => Some(t.secs() as u64),
                        None => None,
                    },
                    open_only: false,
                },
                n,
            ),
            Some(EventFilter::ByGroups { groups }) => ids_in(
                self.events@,
                take_groups(
                    groups@,
                    self.event_groups@,
                    self.event_map(),
                    start_after,
                    GroupListing { seen: Set::empty(), listed: seq![], room: n },
                ).listed.to_set(),
            ),
        }
    }

    pub fn query_list_events(&self, filter: Option<EventFilter>, start_after: Option<u64>, limit: Option<u32>) -> (r: Vec<u64>)
        requires
            self.wf(),
        ensures
            r@ == self.list_events_spec(filter, start_after, limit),
    {
        let n = clamp_limit(limit);
        match filter {
            None => self.walk_by_id(start_after, None, n),
            Some(EventFilter::ByStatus { status }) => self.walk_by_id(start_after, Some(status), n),
            Some(EventFilter::ByTimeRange { start_after: from, end_before }) => {
                let lo = match (from, start_after) {
                    (Some(t), Some(a)) => Some(KeyBound::Exclusive(t.seconds(), a)),
                    (Some(t), None) => Some(KeyBound::Inclusive(t.seconds(), 0)),
                    (None, Some(a)) => Some(KeyBound::Exclusive(0, a)),
                    (None, None) => None,
                };
                let upper = match end_before {
                    Some(t) => Some(t.seconds()),
                    None => None,
                };
                self.walk_by_start(lo, StartFilter { upper, open_only: false }, n)
            },
            Some(EventFilter::ByGroups { groups }) => self.events_by_groups(&groups, start_after, n),
        }
    }

    /// The ids of the events listed newest first: all events before `start_before`, or
    /// those of a status (from the newest, whatever `start_before`), or else the forward
    /// listing of the filter from the start, reversed.
    pub open spec fn reverse_events_spec(&self, filter: Option<EventFilter>, start_before: Option<u64>, limit: Option<u32>) -> Seq<u64> {
        let n = clamped(limit) as nat;
        match filter {
            None => id_walk_back(self.events@, start_before, None, n),
            Some(EventFilter::ByStatus { status }) => id_walk_back(self.events@, None, Some(status), n),
            Some(f) => self.list_events_spec(Some(f), None, Some(n as u32)).reverse(),
        }
    }

    pub fn query_reverse_events(&self, filter: Option<EventFilter>, start_before: Option<u64>, limit: Option<u32>) -> (r: Vec<u64>)
        requires
            self.wf(),
        ensures
            r@ == self.reverse_events_spec(filter, start_before, limit),
    {
        let n = clamp_limit(limit);
        match filter {
            None => self.walk_by_id_back(start_before, None, n),
            Some(EventFilter::ByStatus { status }) => self.walk_by_id_back(None, Some(status), n),
            Some(f) => {
                let ghost g = f;
                let fwd = self.query_list_events(Some(f), None, Some(n as u32));
                let mut out: Vec<u64> = Vec::new();
                let mut i: usize = fwd.len();
                while i > 0
                    invariant
                        i <= fwd@.len(),
                        out@ == fwd@.skip(i as int).reverse(),
                    decreases i,
                {
                    i -= 1;
                    out.push(fwd[i]);
                    assert(out@ =~= fwd@.skip(i as int).reverse());
                }
                assert(fwd@.skip(0) =~= fwd@);
                out
            },
        }
    }

    /// Upcoming and active events from `from` on (from the first second when none is
    /// given), by start time: at most `limit` (10 when none is given, at most 50), and at
    /// least one when there is one.
    pub open spec fn agenda_spec(&self, from: Option<Timestamp>, limit: Option<u32>) -> Seq<u64> {
        walk(
            self.event_map(),
            Some(
                KeyBound::Inclusive(
                    match from {
                        Some(t) => t.secs() as u64,
                        None => 0,
                    },
                    0,
                ),
            ),
            StartFilter { upper: None, open_only: true },
            agenda_size(limit),
        )
    }

    pub fn query_agenda(&self, from: Option<Timestamp>, limit: Option<u32>) -> (r: Vec<u64>)
        requires
            self.wf(),
        ensures
            r@ == self.agenda_spec(from, limit),
    {
        let l = match limit {
            Some(l) => l,
            None => AGENDA_DEFAULT_LIMIT,
        };
        let l = if l < AGENDA_MAX_LIMIT {
            l
        } else {
            AGENDA_MAX_LIMIT
        };
        let n = if l == 0 {
            1
        } else {
            l as usize
        };
        let from_secs = match from {
            Some(t) => t.seconds(),
            None => 0,
        };
        self.walk_by_start(
            Some(KeyBound::Inclusive(from_secs, 0)),
            StartFilter { upper: None, open_only: true },
            n,
        )
    }

    /// The groups managing event `event_id` that exist, in order; `None` when there is no
    /// such event.
    pub fn query_groups_managing_event(&self, event_id: u64) -> (r: Option<Vec<String>>)
        requires
            self.wf(),
        ensures
            !self.event_map().contains_key(event_id) ==> r is None,
            self.event_map().contains_key(event_id) ==> (r matches Some(v) && v@ == present(
                self.group_map(),
                self.event_map()[event_id].managing_groups@,
            )),
    {
        let ids = match get_id(&self.events, event_id) {
            Some(e) => &e.managing_groups,
            None => {
                return None;
            },
        };
        let mut out: Vec<String> = Vec::new();
        let mut i: usize = 0;
        while i < ids.len()
            invariant
                i <= ids@.len(),
                self.wf(),
                out@ == present(self.group_map(), ids@.take(i as int)),
            decreases ids.len() - i,
        {
            assert(ids@.take(i + 1).drop_last() =~= ids@.take(i as int));
            if find_key(&self.groups, &ids[i]).is_some() {
                proof {
                    let k = choose|k: int| 0 <= k < self.groups@.len() && self.groups@[k].0@ == ids@[i as int]@;
                    assert(has_key(self.groups@, self.groups@[k].0@));
                }
                out.push(ids[i].clone());
            }
            i += 1;
        }
        assert(ids@.take(i as int) =~= ids@);
        Some(out)
    }

    /// The event's own gauge messages are read with `collect_gauge_msgs`; this gives, for
    /// each of its managing groups that exists and has gauge suppliers, the group id and
    /// the gauge contracts. `None` when there is no such event.
    pub fn query_event_gauges(&self, event_id: u64) -> (r: Option<Vec<(String, Vec<String>)>>)
        requires
            self.wf(),
        ensures
            !self.event_map().contains_key(event_id) ==> r is None,
            self.event_map().contains_key(event_id) ==> (r matches Some(v) && v@.map_values(
                |p: (String, Vec<String>)| (p.0, p.1@),
            ) == gauge_summary(self.group_map(), self.event_map()[event_id].managing_groups@)),
    {
        let ids = match get_id(&self.events, event_id) {
            Some(e) => &e.managing_groups,
            None => {
                return None;
            },
        };
        let ghost view_of = |p: (String, Vec<String>)| (p.0, p.1@);
        let mut out: Vec<(String, Vec<String>)> = Vec::new();
        let mut i: usize = 0;
        while i < ids.len()
            invariant
                i <= ids@.len(),
                self.wf(),
                view_of == (|p: (String, Vec<String>)| (p.0, p.1@)),
                out@.map_values(view_of) == gauge_summary(self.group_map(), ids@.take(i as int)),
            decreases ids.len() - i,
        {
            assert(ids@.take(i + 1).drop_last() =~= ids@.take(i as int));
            match get_key(&self.groups, &ids[i]) {
                Some(group) => {
                    let gauges = supplier_contracts(&group.suppliers, EventSupplierType::Gauge);
                    if gauges.len() > 0 {
                        let ghost before = out@;
                        out.push((ids[i].clone(), gauges));
                        assert(out@.map_values(view_of) =~= before.map_values(view_of).push(
                            view_of(out@[before.len() as int]),
                        ));
                    }
                },
                None => {},
            }
            i += 1;
        }
        assert(ids@.take(i as int) =~= ids@);
        Some(out)
    }

    /// The number of events ever created.
    pub fn query_event_count(&self) -> (r: u64)
        ensures
            r == self.event_count,
    {
        self.event_count
    }

    /// The recurrence rule of an event, if it has one.
    pub fn query_event_recurrence(&self, event_id: u64) -> (r: Option<&RecurrenceRule>)
        requires
            self.wf(),
        ensures
            r == (if self.recurrence_map().contains_key(event_id) {
                Some(&self.recurrence_map()[event_id])
            } else {
                None
            }),
    {
        get_id(&self.recurrences, event_id)
    }

    /// The ids of the groups after `start_after` in storage order (by their UTF-8 bytes),
    /// at most `clamped(limit)` of them.
    pub fn query_list_groups(&self, start_after: Option<String>, limit: Option<u32>) -> (r: Vec<String>)
        ensures
            is_key_page(self.group_map().dom(), opt_view(start_after), clamped(limit), str_views(r@)),
    {
        keys_in_order(&self.groups, start_after, clamp_limit(limit))
    }

    /// A group by its id.
    pub fn query_group(&self, group_id: &String) -> (r: Option<&Group>)
        requires
            self.wf(),
        ensures
            r == (if self.group_map().contains_key(group_id@) {
                Some(&self.group_map()[group_id@])
            } else {
                None
            }),
    {
        get_key(&self.groups, group_id)
    }

    /// The calendar's state: its DAO, the ids of all its groups in storage order, and the
    /// number of events ever created.
    pub fn query_dump_state(&self) -> (r: (String, Vec<String>, u64))
        ensures
            r.0 == self.dao,
            is_key_page(self.group_map().dom(), None, self.groups@.len() as int, str_views(r.1@)),
            forall|k: Seq<char>| self.group_map().dom().contains(k) <==> str_views(r.1@).contains(k),
            r.2 == self.event_count,
    {
        let ids = keys_in_order(&self.groups, None, self.groups.len());
        proof {
            lemma_all_keys_listed(self.groups@, str_views(ids@));
        }
        (self.dao.clone(), ids, self.event_count)
    }

    /// The instances of a recurring event within a time range, and whether more follow
    /// (see `compute_instances`); none for an event without a recurrence rule, and `None`
    /// for an unknown event.
    pub fn query_compute_recurring_instances(
        &self,
        event_id: u64,
        from: Option<Timestamp>,
        to: Option<Timestamp>,
        limit: Option<u32>,
    ) -> (r: Option<(Vec<ComputedInstance>, bool)>)
        requires
            self.wf(),
            self.event_map().contains_key(event_id) && self.recurrence_map().contains_key(event_id)
                ==> scan_of(
                self.recurrence_map()[event_id],
                self.event_map()[event_id].start_time,
                self.event_map()[event_id].end_time,
                from,
                to,
                limit,
            ).fits(),
        ensures
            r is None <==> !self.event_map().contains_key(event_id),
            r matches Some(res) ==> if self.recurrence_map().contains_key(event_id) {
                is_listing(
                    scan_of(
                        self.recurrence_map()[event_id],
                        self.event_map()[event_id].start_time,
                        self.event_map()[event_id].end_time,
                        from,
                        to,
                        limit,
                    ),
                    res.0@,
                    res.1,
                )
            } else {
                res.0@.len() == 0 && !res.1
            },
    {
        let event = match get_id(&self.events, event_id) {
            Some(e) => e,
            None => return None,
        };
        match get_id(&self.recurrences, event_id) {
            Some(rule) => Some(compute_instances(rule, event.start_time, event.end_time, from, to, limit)),
            None => Some((Vec::new(), false)),
        }
    }
}

/// The first initial group whose id an earlier one already took, if any.
pub open spec fn first_repeat(inits: Seq<GroupInit>) -> Option<int> {
    if exists|j: int| 0 <= j < inits.len() && #[trigger] repeats(inits, j) {
        Some(choose|j: int| 0 <= j < inits.len() && #[trigger] repeats(inits, j) && forall|k: int| 0 <= k < j ==> !repeats(inits, k))
    } else {
        None
    }
}

/// The initial groups given, if any.
pub open spec fn init_list(g: Option<Vec<GroupInit>>) -> Seq<GroupInit> {
    match g {
        Some(v) => v@,
        None => seq![],
    }
}

pub open spec fn repeats(inits: Seq<GroupInit>, j: int) -> bool {
    exists|i: int| 0 <= i < j && #[trigger] inits[i].id@ == inits[j].id@
}

impl<T> CalendarState<T> {
    /// A calendar of the DAO `dao` (the instantiating sender) with its initial groups;
    /// two initial groups with one id are refused.
    pub fn instantiate(dao: String, initial_groups: Option<Vec<GroupInit>>) -> (r: Result<Self, ContractError>)
        ensures
            first_repeat(init_list(initial_groups)) matches Some(j) ==> (r matches Err(
                ContractError::GroupAlreadyExists { id },
            ) && id == init_list(initial_groups)[j].id),
            first_repeat(init_list(initial_groups)) is None ==> (r matches Ok(s) && s.wf() && s.dao
                == dao && s.event_count == 0 && s.group_map().dom() == Set::new(
                |k: Seq<char>|
                    exists|i: int|
                        0 <= i < init_list(initial_groups).len() && #[trigger] init_list(
                            initial_groups,
                        )[i].id@ == k,
            ) && (forall|i: int|
                0 <= i < init_list(initial_groups).len() ==> #[trigger] group_from(
                    dao,
                    init_list(initial_groups)[i],
                    s.group_map()[init_list(initial_groups)[i].id@],
                ))),
            r matches Ok(s) ==> s.event_map() == Map::<u64, Event<T>>::empty() && s.join_map()
                == Map::<u64, Seq<String>>::empty() && s.gauge_map() == Map::<u64, EventGauge>::empty()
                && s.recurrence_map() == Map::<u64, RecurrenceRule>::empty() && s.hooks@.len() == 0,
    {
        let mut s = Self::new(dao.clone());
        match initial_groups {
            None => {
                assert(s.group_map().dom() =~= Set::new(
                    |k: Seq<char>|
                        exists|i: int|
                            0 <= i < init_list(initial_groups).len() && #[trigger] init_list(
                                initial_groups,
                            )[i].id@ == k,
                ));
                Ok(s)
            },
            Some(inits) => {
                let ghost iv = inits@;
                let total = inits.len();
                let mut rest = inits;
                let mut taken: Vec<GroupInit> = Vec::new();
                // Work from the front: reverse once, then pop.
                while rest.len() > 0
                    invariant
                        rest@.len() + taken@.len() == iv.len(),
                        rest@ == iv.take(rest@.len() as int),
                        forall|j: int| 0 <= j < taken@.len() ==> #[trigger] taken@[j] == iv[iv.len() - 1 - j],
                    decreases rest.len(),
                {
                    let g = rest.pop().unwrap();
                    taken.push(g);
                    assert(rest@ =~= iv.take(rest@.len() as int));
                }
                let mut i: usize = 0;
                while taken.len() > 0
                    invariant
                        i + taken@.len() == iv.len(),
                        iv.len() == total,
                        init_list(initial_groups) == iv,
                        forall|j: int| 0 <= j < taken@.len() ==> #[trigger] taken@[j] == iv[iv.len() - 1 - j],
                        s.wf(),
                        s.dao == dao,
                        s.event_count == 0,
                        s.event_map() == Map::<u64, Event<T>>::empty(),
                        s.join_map() == Map::<u64, Seq<String>>::empty(),
                        s.gauge_map() == Map::<u64, EventGauge>::empty(),
                        s.recurrence_map() == Map::<u64, RecurrenceRule>::empty(),
                        s.hooks@.len() == 0,
                        forall|j: int| 0 <= j < i ==> !repeats(iv, j),
                        s.group_map().dom() == Set::new(
                            |k: Seq<char>| exists|x: int| 0 <= x < i && #[trigger] iv[x].id@ == k,
                        ),
                        forall|x: int| 0 <= x < i ==> #[trigger] group_from(dao, iv[x], s.group_map()[iv[x].id@]),
                    decreases taken.len(),
                {
                    let ghost last = taken@.len() - 1;
                    assert(taken@[last] == iv[i as int]);
                    let g = taken.pop().unwrap();
                    let ghost gid = g.id@;
                    let ghost before = s;
                    proof {
                        if repeats(iv, i as int) {
                            let x = choose|x: int| 0 <= x < i && #[trigger] iv[x].id@ == iv[i as int].id@;
                            assert(s.group_map().dom().contains(iv[x].id@));
                        }
                        if s.group_map().contains_key(gid) {
                            assert(s.group_map().dom().contains(gid));
                            let x = choose|x: int| 0 <= x < i && #[trigger] iv[x].id@ == gid;
                            assert(repeats(iv, i as int));
                        }
                    }
                    match s.save_group_from_init(&dao, g) {
                        Ok(()) => {},
                        Err(e) => {
                            proof {
                                assert(repeats(iv, i as int));
                                assert forall|k: int| 0 <= k < i implies !repeats(iv, k) by {}
                                assert(first_repeat(iv) == Some(i as int)) by {
                                    assert(0 <= i < iv.len() && repeats(iv, i as int) && forall|k: int| 0 <= k < i ==> !repeats(iv, k));
                                    let c = choose|j: int| 0 <= j < iv.len() && #[trigger] repeats(iv, j) && forall|k: int| 0 <= k < j ==> !repeats(iv, k);
                                    if c < i {
                                        assert(!repeats(iv, c));
                                    } else if c > i {
                                        assert(!repeats(iv, i as int));
                                    }
                                }
                            }
                            assert(before.group_map().contains_key(gid));
                            assert(e matches ContractError::GroupAlreadyExists { id } && id == iv[i as int].id);
                            return Err(e);
                        },
                    }
                    proof {
                        assert(!repeats(iv, i as int));
                        assert(s.group_map().dom() =~= Set::new(
                            |k: Seq<char>| exists|x: int| 0 <= x < i + 1 && #[trigger] iv[x].id@ == k,
                        )) by {
                            assert forall|k: Seq<char>| #[trigger] s.group_map().dom().contains(k) == (exists|x: int| 0 <= x < i + 1 && #[trigger] iv[x].id@ == k) by {
                                if k == gid {
                                    assert(iv[i as int].id@ == k);
                                }
                            }
                        }
                        assert forall|x: int| 0 <= x < i + 1 implies #[trigger] group_from(dao, iv[x], s.group_map()[iv[x].id@]) by {
                            if x < i {
                                assert(iv[x].id@ != gid) by {
                                    if iv[x].id@ == gid {
                                        assert(repeats(iv, i as int));
                                    }
                                }
                            }
                        }
                    }
                    i += 1;
                }
                proof {
                    assert forall|j: int| 0 <= j < iv.len() implies !(#[trigger] repeats(iv, j)) by {}
                }
                Ok(s)
            },
        }
    }
}

// ═══════════════════════════ Laws ═══════════════════════════

impl<T> CalendarState<T> {
    /// Executes a message from `sender` at time `now`, by its handler; `vouched` is the
    /// suppliers' answer for the handlers that ask. Whatever the message, an event's
    /// status only moves upcoming -> active -> completed, or to cancelled from upcoming
    /// or active, and a new event starts upcoming.
    pub fn execute(&mut self, sender: String, now: Timestamp, msg: ExecuteMsg<T>, vouched: bool) -> (r: Result<ExecuteOutcome, ContractError>)
        requires
            old(self).wf(),
            msg is CreateEvent ==> old(self).event_count < u64::MAX,
        ensures
            final(self).wf(),
            statuses_kept(old(self).event_map(), final(self).event_map()),
            match msg {
                ExecuteMsg::CreateEvent {
                    title,
                    description,
                    start_time,
                    end_time,
                    managing_groups,
                    services,
                    extension,
                    timezone,
                    recurrence,
                } => match old(self).create_error(sender@, start_time, end_time, managing_groups@, timezone, vouched) {
                    Some(e) => r == Err::<ExecuteOutcome, ContractError>(e) && *final(self) == *old(self),
                    None => {
                        let id = (old(self).event_count + 1) as u64;
                        &&& r == Ok::<ExecuteOutcome, ContractError>(ExecuteOutcome::Created { event_id: id })
                        &&& final(self).event_count == id
                        &&& !old(self).event_map().contains_key(id)
                        &&& final(self).event_map() == old(self).event_map().insert(id, final(self).event_map()[id])
                        &&& created_event(
                            final(self).event_map()[id],
                            id,
                            title,
                            description,
                            start_time,
                            end_time,
                            managing_groups@,
                            services,
                            extension,
                            timezone,
                            sender,
                            now,
                        )
                        &&& final(self).join_map() == old(self).join_map().insert(id, managing_groups@)
                        &&& final(self).recurrence_map() == (match recurrence {
                            Some(rr) => old(self).recurrence_map().insert(id, rr),
                            None => old(self).recurrence_map(),
                        })
                        &&& final(self).dao == old(self).dao
                        &&& final(self).groups == old(self).groups
                        &&& final(self).gauges == old(self).gauges
                        &&& final(self).hooks == old(self).hooks
                    },
                },
                ExecuteMsg::UpdateEvent {
                    event_id,
                    title,
                    description,
                    start_time,
                    end_time,
                    managing_groups,
                    services,
                    extension,
                    timezone,
                } => match old(self).update_error(sender@, event_id, start_time, end_time, managing_groups, timezone, vouched) {
                    Some(e) => r == Err::<ExecuteOutcome, ContractError>(e) && *final(self) == *old(self),
                    None => {
                        &&& r == Ok::<ExecuteOutcome, ContractError>(ExecuteOutcome::Done)
                        &&& final(self).event_map() == old(self).event_map().insert(
                            event_id,
                            final(self).event_map()[event_id],
                        )
                        &&& updated_event(
                            old(self).event_map()[event_id],
                            final(self).event_map()[event_id],
                            title,
                            description,
                            start_time,
                            end_time,
                            managing_groups,
                            services,
                            extension,
                            timezone,
                        )
                        &&& final(self).join_map() == (match managing_groups {
                            Some(g) => old(self).join_map().insert(event_id, g@),
                            None => old(self).join_map(),
                        })
                        &&& final(self).event_count == old(self).event_count
                        &&& final(self).dao == old(self).dao
                        &&& final(self).groups == old(self).groups
                        &&& final(self).gauges == old(self).gauges
                        &&& final(self).recurrences == old(self).recurrences
                        &&& final(self).hooks == old(self).hooks
                    },
                },
                ExecuteMsg::CancelEvent { event_id } => match old(self).cancel_error(sender@, event_id, vouched) {
                    Some(e) => r == Err::<ExecuteOutcome, ContractError>(e) && *final(self) == *old(self),
                    None => {
                        &&& r == Ok::<ExecuteOutcome, ContractError>(
                            ExecuteOutcome::Cancelled { old_status: old(self).event_map()[event_id].status },
                        )
                        &&& final(self).event_map() == old(self).event_map().insert(
                            event_id,
                            final(self).event_map()[event_id],
                        )
                        &&& with_status(
                            old(self).event_map()[event_id],
                            final(self).event_map()[event_id],
                            EventStatus::Cancelled,
                        )
                        &&& final(self).event_count == old(self).event_count
                        &&& final(self).dao == old(self).dao
                        &&& final(self).groups == old(self).groups
                        &&& final(self).event_groups == old(self).event_groups
                        &&& final(self).gauges == old(self).gauges
                        &&& final(self).recurrences == old(self).recurrences
                        &&& final(self).hooks == old(self).hooks
                    },
                },
                ExecuteMsg::RegisterEventGauges { event_id, begin_msgs, end_msgs } => match old(self).gauge_error(
                    sender@,
                    event_id,
                    vouched,
                ) {
                    Some(e) => r == Err::<ExecuteOutcome, ContractError>(e) && *final(self) == *old(self),
                    None => {
                        &&& r == Ok::<ExecuteOutcome, ContractError>(ExecuteOutcome::Done)
                        &&& final(self).gauge_map() == old(self).gauge_map().insert(
                            event_id,
                            EventGauge { event_id, begin_msgs, end_msgs },
                        )
                        &&& final(self).event_count == old(self).event_count
                        &&& final(self).dao == old(self).dao
                        &&& final(self).events == old(self).events
                        &&& final(self).groups == old(self).groups
                        &&& final(self).event_groups == old(self).event_groups
                        &&& final(self).recurrences == old(self).recurrences
                        &&& final(self).hooks == old(self).hooks
                    },
                },
                ExecuteMsg::TriggerEventStart { event_id } => match old(self).trigger_error(now, event_id, true) {
                    Some(e) => r == Err::<ExecuteOutcome, ContractError>(e) && *final(self) == *old(self),
                    None => {
                        &&& r == Ok::<ExecuteOutcome, ContractError>(
                            ExecuteOutcome::Triggered {
                                old_status: EventStatus::Upcoming,
                                new_status: EventStatus::Active,
                            },
                        )
                        &&& final(self).event_map() == old(self).event_map().insert(
                            event_id,
                            final(self).event_map()[event_id],
                        )
                        &&& with_status(
                            old(self).event_map()[event_id],
                            final(self).event_map()[event_id],
                            EventStatus::Active,
                        )
                        &&& final(self).event_count == old(self).event_count
                        &&& final(self).dao == old(self).dao
                        &&& final(self).groups == old(self).groups
                        &&& final(self).event_groups == old(self).event_groups
                        &&& final(self).gauges == old(self).gauges
                        &&& final(self).recurrences == old(self).recurrences
                        &&& final(self).hooks == old(self).hooks
                    },
                },
                ExecuteMsg::TriggerEventEnd { event_id } => match old(self).trigger_error(now, event_id, false) {
                    Some(e) => r == Err::<ExecuteOutcome, ContractError>(e) && *final(self) == *old(self),
                    None => {
                        &&& r == Ok::<ExecuteOutcome, ContractError>(
                            ExecuteOutcome::Triggered {
                                old_status: EventStatus::Active,
                                new_status: EventStatus::Completed,
                            },
                        )
                        &&& final(self).event_map() == old(self).event_map().insert(
                            event_id,
                            final(self).event_map()[event_id],
                        )
                        &&& with_status(
                            old(self).event_map()[event_id],
                            final(self).event_map()[event_id],
                            EventStatus::Completed,
                        )
                        &&& final(self).event_count == old(self).event_count
                        &&& final(self).dao == old(self).dao
                        &&& final(self).groups == old(self).groups
                        &&& final(self).event_groups == old(self).event_groups
                        &&& final(self).gauges == old(self).gauges
                        &&& final(self).recurrences == old(self).recurrences
                        &&& final(self).hooks == old(self).hooks
                    },
                },
                ExecuteMsg::RenewCalendar { limit } => {
                    let gone = old(self).renew_ids(now, limit).to_set();
                    &&& r == Ok::<ExecuteOutcome, ContractError>(
                        ExecuteOutcome::Renewed { pruned: old(self).renew_ids(now, limit).len() as usize },
                    )
                    &&& final(self).event_map() == old(self).event_map().remove_keys(gone)
                    &&& final(self).join_map() == old(self).join_map().remove_keys(gone)
                    &&& final(self).gauge_map() == old(self).gauge_map().remove_keys(gone)
                    &&& final(self).recurrence_map() == old(self).recurrence_map().remove_keys(gone)
                    &&& final(self).event_count == old(self).event_count
                    &&& final(self).dao == old(self).dao
                    &&& final(self).groups == old(self).groups
                    &&& final(self).hooks == old(self).hooks
                },
                ExecuteMsg::RegisterGroup { group } => {
                    &&& final(self).dao == old(self).dao
                    &&& final(self).event_count == old(self).event_count
                    &&& final(self).events == old(self).events
                    &&& final(self).event_groups == old(self).event_groups
                    &&& final(self).gauges == old(self).gauges
                    &&& final(self).recurrences == old(self).recurrences
                    &&& final(self).hooks == old(self).hooks
                    &&& if sender@ != old(self).dao@ {
                        r == Err::<ExecuteOutcome, ContractError>(ContractError::Unauthorized {}) && *final(self)
                            == *old(self)
                    } else if old(self).group_map().contains_key(group.id@) {
                        r matches Err(ContractError::GroupAlreadyExists { id }) && id == group.id && *final(self)
                            == *old(self)
                    } else {
                        &&& r == Ok::<ExecuteOutcome, ContractError>(ExecuteOutcome::Done)
                        &&& final(self).group_map() == old(self).group_map().insert(
                            group.id@,
                            final(self).group_map()[group.id@],
                        )
                        &&& group_from(sender, group, final(self).group_map()[group.id@])
                    }
                },
                ExecuteMsg::UpdateGroup { group_id, suppliers } => {
                    &&& final(self).dao == old(self).dao
                    &&& final(self).event_count == old(self).event_count
                    &&& final(self).events == old(self).events
                    &&& final(self).event_groups == old(self).event_groups
                    &&& final(self).gauges == old(self).gauges
                    &&& final(self).recurrences == old(self).recurrences
                    &&& final(self).hooks == old(self).hooks
                    &&& if sender@ != old(self).dao@ {
                        r == Err::<ExecuteOutcome, ContractError>(ContractError::Unauthorized {}) && *final(self)
                            == *old(self)
                    } else if !old(self).group_map().contains_key(group_id@) {
                        r == Err::<ExecuteOutcome, ContractError>(ContractError::NoSuchGroup { id: group_id })
                            && *final(self) == *old(self)
                    } else {
                        let o = old(self).group_map()[group_id@];
                        let g = final(self).group_map()[group_id@];
                        &&& r == Ok::<ExecuteOutcome, ContractError>(ExecuteOutcome::Done)
                        &&& final(self).group_map() == old(self).group_map().insert(group_id@, g)
                        &&& (match suppliers {
                            Some(s) => suppliers_from(s@, g.suppliers@),
                            None => g.suppliers == o.suppliers,
                        })
                        &&& g.id == o.id && g.dao == o.dao && g.name == o.name
                        &&& g.description == o.description && g.color == o.color
                        &&& g.members == o.members
                    }
                },
                ExecuteMsg::RemoveGroup { group_id } => {
                    &&& final(self).dao == old(self).dao
                    &&& final(self).event_count == old(self).event_count
                    &&& final(self).gauges == old(self).gauges
                    &&& final(self).recurrences == old(self).recurrences
                    &&& final(self).hooks == old(self).hooks
                    &&& if sender@ != old(self).dao@ {
                        r == Err::<ExecuteOutcome, ContractError>(ContractError::Unauthorized {}) && *final(self)
                            == *old(self)
                    } else if !old(self).group_map().contains_key(group_id@) {
                        r == Err::<ExecuteOutcome, ContractError>(ContractError::NoSuchGroup { id: group_id })
                            && *final(self) == *old(self)
                    } else {
                        &&& r == Ok::<ExecuteOutcome, ContractError>(ExecuteOutcome::Done)
                        &&& final(self).group_map() == old(self).group_map().remove(group_id@)
                        &&& final(self).join_map().dom() == old(self).join_map().dom()
                        &&& forall|k: u64| #[trigger]
                            final(self).join_map().contains_key(k) ==> final(self).join_map()[k]
                                == old(self).join_map()[k].filter(not_named(group_id@))
                        &&& final(self).events == old(self).events
                    }
                },
                ExecuteMsg::AddEventHook { address } => {
                    &&& final(self).dao == old(self).dao
                    &&& final(self).event_count == old(self).event_count
                    &&& final(self).events == old(self).events
                    &&& final(self).groups == old(self).groups
                    &&& final(self).event_groups == old(self).event_groups
                    &&& final(self).gauges == old(self).gauges
                    &&& final(self).recurrences == old(self).recurrences
                    &&& if sender@ != old(self).dao@ {
                        r == Err::<ExecuteOutcome, ContractError>(ContractError::Unauthorized {}) && *final(self)
                            == *old(self)
                    } else if hook_view(old(self).hooks@).contains(address@) {
                        r == Err::<ExecuteOutcome, ContractError>(
                            ContractError::HookError(HookError::HookAlreadyRegistered {}),
                        ) && *final(self) == *old(self)
                    } else {
                        r == Ok::<ExecuteOutcome, ContractError>(ExecuteOutcome::Done) && final(self).hooks@
                            == old(self).hooks@.push(address)
                    }
                },
                ExecuteMsg::RemoveEventHook { address } => {
                    &&& final(self).dao == old(self).dao
                    &&& final(self).event_count == old(self).event_count
                    &&& final(self).events == old(self).events
                    &&& final(self).groups == old(self).groups
                    &&& final(self).event_groups == old(self).event_groups
                    &&& final(self).gauges == old(self).gauges
                    &&& final(self).recurrences == old(self).recurrences
                    &&& if sender@ != old(self).dao@ {
                        r == Err::<ExecuteOutcome, ContractError>(ContractError::Unauthorized {}) && *final(self)
                            == *old(self)
                    } else if !hook_view(old(self).hooks@).contains(address@) {
                        r == Err::<ExecuteOutcome, ContractError>(
                            ContractError::HookError(HookError::HookNotRegistered {}),
                        ) && *final(self) == *old(self)
                    } else {
                        &&& r == Ok::<ExecuteOutcome, ContractError>(ExecuteOutcome::Done)
                        &&& exists|i: int|
                            0 <= i < old(self).hooks@.len() && old(self).hooks@[i]@ == address@ && (forall|j: int|
                                0 <= j < i ==> old(self).hooks@[j]@ != address@) && final(self).hooks@ == old(
                                self,
                            ).hooks@.remove(i)
                    }
                },
            },
    {
        match msg {
            ExecuteMsg::CreateEvent {
                title,
                description,
                start_time,
                end_time,
                managing_groups,
                services,
                extension,
                timezone,
                recurrence,
            } => {
                let event_id = self.execute_create_event(
                    sender,
                    now,
                    title,
                    description,
                    start_time,
                    end_time,
                    managing_groups,
                    services,
                    extension,
                    timezone,
                    recurrence,
                    vouched,
                )?;
                Ok(ExecuteOutcome::Created { event_id })
            },
            ExecuteMsg::UpdateEvent {
                event_id,
                title,
                description,
                start_time,
                end_time,
                managing_groups,
                services,
                extension,
                timezone,
            } => {
                self.execute_update_event(
                    sender,
                    event_id,
                    title,
                    description,
                    start_time,
                    end_time,
                    managing_groups,
                    services,
                    extension,
                    timezone,
                    vouched,
                )?;
                Ok(ExecuteOutcome::Done)
            },
            ExecuteMsg::CancelEvent { event_id } => {
                let old_status = self.execute_cancel_event(sender, event_id, vouched)?;
                Ok(ExecuteOutcome::Cancelled { old_status })
            },
            ExecuteMsg::RegisterEventGauges { event_id, begin_msgs, end_msgs } => {
                self.execute_register_event_gauges(sender, event_id, begin_msgs, end_msgs, vouched)?;
                Ok(ExecuteOutcome::Done)
            },
            ExecuteMsg::TriggerEventStart { event_id } => {
                let (old_status, new_status) = self.execute_trigger_event_start(now, event_id)?;
                Ok(ExecuteOutcome::Triggered { old_status, new_status })
            },
            ExecuteMsg::TriggerEventEnd { event_id } => {
                let (old_status, new_status) = self.execute_trigger_event_end(now, event_id)?;
                Ok(ExecuteOutcome::Triggered { old_status, new_status })
            },
            ExecuteMsg::RegisterGroup { group } => {
                self.execute_register_group(sender, group)?;
                Ok(ExecuteOutcome::Done)
            },
            ExecuteMsg::UpdateGroup { group_id, suppliers } => {
                self.execute_update_group(sender, group_id, suppliers)?;
                Ok(ExecuteOutcome::Done)
            },
            ExecuteMsg::RemoveGroup { group_id } => {
                self.execute_remove_group(sender, group_id)?;
                Ok(ExecuteOutcome::Done)
            },
            ExecuteMsg::RenewCalendar { limit } => {
                let pruned = self.execute_renew_calendar(now, limit);
                Ok(ExecuteOutcome::Renewed { pruned })
            },
            ExecuteMsg::AddEventHook { address } => {
                self.execute_add_event_hook(sender, address)?;
                Ok(ExecuteOutcome::Done)
            },
            ExecuteMsg::RemoveEventHook { address } => {
                self.execute_remove_event_hook(sender, address)?;
                Ok(ExecuteOutcome::Done)
            },
        }
    }
}

/// Whatever messages a calendar executes, one after the other, a completed or cancelled
/// event stays so (or is pruned), and each kept event's status moves only along allowed
/// steps.
pub proof fn law_status_over_messages<T>(a: Map<u64, Event<T>>, b: Map<u64, Event<T>>, c: Map<u64, Event<T>>)
    requires
        statuses_kept(a, b),
        statuses_kept(b, c),
    ensures
        forall|k: u64|
            a.contains_key(k) && b.contains_key(k) && #[trigger] c.contains_key(k) && (a[k].status
                == EventStatus::Completed || a[k].status == EventStatus::Cancelled) ==> c[k].status
                == a[k].status,
        forall|k: u64|
            #[trigger] c.contains_key(k) && !a.contains_key(k) && !b.contains_key(k) ==> c[k].status
                == EventStatus::Upcoming,
{
    assert forall|k: u64|
        a.contains_key(k) && b.contains_key(k) && #[trigger] c.contains_key(k) && (a[k].status
            == EventStatus::Completed || a[k].status == EventStatus::Cancelled) implies c[k].status
        == a[k].status by {
        assert(status_step(a[k].status, b[k].status));
        assert(status_step(b[k].status, c[k].status));
    }
}

/// The id a new event gets was never used: no event holds it.
pub proof fn law_new_event_id_is_fresh<T>(s: CalendarState<T>)
    requires
        s.wf(),
        s.event_count < u64::MAX,
    ensures
        !s.event_map().contains_key((s.event_count + 1) as u64),
{
    let id = (s.event_count + 1) as u64;
    if s.event_map().contains_key(id) {
        assert(id <= s.event_count);
    }
}

/// A cancelled event is final: cancelling, updating or triggering it again is refused.
pub proof fn law_cancelled_is_final<T>(
    s: CalendarState<T>,
    id: u64,
    sender: Seq<char>,
    vouched: bool,
    now: Timestamp,
    start_time: Option<Timestamp>,
    end_time: Option<Timestamp>,
    managing_groups: Option<Vec<String>>,
    timezone: Option<String>,
)
    requires
        s.event_map().contains_key(id),
        s.event_map()[id].status == EventStatus::Cancelled,
    ensures
        s.cancel_error(sender, id, vouched) == Some(ContractError::EventNotUpcoming { id }),
        s.update_error(sender, id, start_time, end_time, managing_groups, timezone, vouched)
            == Some(ContractError::EventNotUpcoming { id }),
        s.trigger_error(now, id, true) == Some(ContractError::EventNotUpcoming { id }),
        s.trigger_error(now, id, false) == Some(ContractError::EventNotActive { id }),
{
}

/// A completed event is final too: it cannot be cancelled, updated or triggered.
pub proof fn law_completed_is_final<T>(
    s: CalendarState<T>,
    id: u64,
    sender: Seq<char>,
    vouched: bool,
    now: Timestamp,
    start_time: Option<Timestamp>,
    end_time: Option<Timestamp>,
    managing_groups: Option<Vec<String>>,
    timezone: Option<String>,
)
    requires
        s.event_map().contains_key(id),
        s.event_map()[id].status == EventStatus::Completed,
    ensures
        s.cancel_error(sender, id, vouched) == Some(ContractError::EventNotUpcoming { id }),
        s.update_error(sender, id, start_time, end_time, managing_groups, timezone, vouched)
            == Some(ContractError::EventNotUpcoming { id }),
        s.trigger_error(now, id, true) == Some(ContractError::EventNotUpcoming { id }),
        s.trigger_error(now, id, false) == Some(ContractError::EventNotActive { id }),
{
}

/// Events move upcoming -> active -> completed: a start is allowed only for an upcoming
/// event whose start time has come, an end only for an active event whose end has come.
pub proof fn law_life_cycle<T>(s: CalendarState<T>, now: Timestamp, id: u64)
    ensures
        s.trigger_error(now, id, true) is None ==> s.event_map().contains_key(id)
            && s.event_map()[id].status == EventStatus::Upcoming && s.event_map()[id].start_time.nanos
            <= now.nanos,
        s.trigger_error(now, id, false) is None ==> s.event_map().contains_key(id)
            && s.event_map()[id].status == EventStatus::Active && s.event_map()[id].end_time.nanos
            <= now.nanos,
{
}

/// The first kept event is kept.
proof fn lemma_first_in_walk_kept<T>(m: Map<u64, Event<T>>, lo: Option<KeyBound>, f: StartFilter)
    ensures
        first_in_walk(m, lo, f) matches Some(k) ==> in_walk(m, lo, f, k),
{
    reveal(first_in_walk);
}

/// A walk over the start-time index lists at most `n` events, each kept by the filter,
/// above the lower end, and in strictly increasing index order.
pub proof fn law_walk_sound<T>(m: Map<u64, Event<T>>, lo: Option<KeyBound>, f: StartFilter, n: nat)
    requires
        forall|j: u64| #[trigger] m.contains_key(j) ==> m[j].id == j,
    ensures
        walk(m, lo, f, n).len() <= n,
        forall|i: int| 0 <= i < walk(m, lo, f, n).len() ==> #[trigger] in_walk(m, lo, f, walk(m, lo, f, n)[i]),
        forall|i: int, j: int|
            0 <= i < j < walk(m, lo, f, n).len() ==> key_lt(
                start_key(m[walk(m, lo, f, n)[i]]),
                start_key(m[walk(m, lo, f, n)[j]]),
            ),
    decreases n,
{
    if n > 0 {
        lemma_first_in_walk_kept(m, lo, f);
        match first_in_walk(m, lo, f) {
            None => {},
            Some(k) => {
                let lo2 = Some(KeyBound::Exclusive(start_key(m[k]).0, start_key(m[k]).1));
                law_walk_sound(m, lo2, f, (n - 1) as nat);
                let w = walk(m, lo, f, n);
                let rest = walk(m, lo2, f, (n - 1) as nat);
                assert(w == seq![k] + rest);
                assert forall|i: int| 0 <= i < w.len() implies #[trigger] in_walk(m, lo, f, w[i]) by {
                    if i > 0 {
                        assert(w[i] == rest[i - 1]);
                        assert(in_walk(m, lo2, f, rest[i - 1]));
                        let kk = start_key(m[k]);
                        let ki = start_key(m[w[i]]);
                        assert(key_lt(kk, ki));
                        assert(in_walk(m, lo, f, k));
                    }
                }
                assert forall|i: int, j: int| 0 <= i < j < w.len() implies key_lt(
                    start_key(m[w[i]]),
                    start_key(m[w[j]]),
                ) by {
                    assert(w[j] == rest[j - 1]);
                    assert(in_walk(m, lo2, f, rest[j - 1]));
                    if i > 0 {
                        assert(w[i] == rest[i - 1]);
                    }
                }
            },
        }
    }
}

/// Among the kept events above `lo`, one comes first in index order.
proof fn lemma_least_in_walk_exists<T>(m: Map<u64, Event<T>>, lo: Option<KeyBound>, f: StartFilter, k: u64)
    requires
        in_walk(m, lo, f, k),
    ensures
        exists|c: u64|
            #[trigger] in_walk(m, lo, f, c) && forall|j: u64|
                #[trigger] in_walk(m, lo, f, j) ==> !key_lt(start_key(m[j]), start_key(m[c])),
    decreases start_key(m[k]).0, start_key(m[k]).1,
{
    if exists|j: u64| #[trigger] in_walk(m, lo, f, j) && key_lt(start_key(m[j]), start_key(m[k])) {
        let j = choose|j: u64| #[trigger] in_walk(m, lo, f, j) && key_lt(start_key(m[j]), start_key(m[k]));
        lemma_least_in_walk_exists(m, lo, f, j);
    } else {
        assert(forall|j: u64| #[trigger] in_walk(m, lo, f, j) ==> !key_lt(start_key(m[j]), start_key(m[k])));
    }
}

/// A walk stops short of `n` events only when it has listed every kept event above `lo`.
pub proof fn law_walk_complete<T>(m: Map<u64, Event<T>>, lo: Option<KeyBound>, f: StartFilter, n: nat, k: u64)
    requires
        forall|j: u64| #[trigger] m.contains_key(j) ==> m[j].id == j,
        in_walk(m, lo, f, k),
        !walk(m, lo, f, n).contains(k),
    ensures
        walk(m, lo, f, n).len() == n,
    decreases n,
{
    if n > 0 {
        lemma_least_in_walk_exists(m, lo, f, k);
        reveal(first_in_walk);
        let k0 = first_in_walk(m, lo, f)->0;
        assert(in_walk(m, lo, f, k0));
        assert(forall|j: u64| #[trigger] in_walk(m, lo, f, j) ==> !key_lt(start_key(m[j]), start_key(m[k0])));
        let lo2 = Some(KeyBound::Exclusive(start_key(m[k0]).0, start_key(m[k0]).1));
        let w = walk(m, lo, f, n);
        let rest = walk(m, lo2, f, (n - 1) as nat);
        assert(w == seq![k0] + rest);
        assert(w[0] == k0);
        assert(k != k0);
        assert(m[k].id == k && m[k0].id == k0);
        assert(!key_lt(start_key(m[k]), start_key(m[k0])));
        assert(key_lt(start_key(m[k0]), start_key(m[k])));
        assert(in_walk(m, lo2, f, k));
        if rest.contains(k) {
            let i = choose|i: int| 0 <= i < rest.len() && rest[i] == k;
            assert(w[i + 1] == k);
        }
        law_walk_complete(m, lo2, f, (n - 1) as nat, k);
    }
}

/// Renewal prunes every event that started a year or more ago, unless it has already
/// pruned `limit` (100 when none is given) of them.
pub proof fn law_renew_prunes_every_old_event<T>(s: CalendarState<T>, now: Timestamp, limit: Option<u32>, id: u64)
    requires
        s.wf(),
        s.event_map().contains_key(id),
        s.event_map()[id].start_time.secs() <= renew_cutoff(now),
        !s.renew_ids(now, limit).contains(id),
    ensures
        s.renew_ids(now, limit).len() == (match limit {
            Some(l) => l,
            None => RENEW_DEFAULT_LIMIT,
        }),
{
    let f = StartFilter { upper: Some(renew_cutoff(now)), open_only: false };
    let n = (match limit {
        Some(l) => l,
        None => RENEW_DEFAULT_LIMIT,
    }) as nat;
    assert(in_walk(s.event_map(), None, f, id));
    law_walk_complete(s.event_map(), None, f, n, id);
}

/// The events pruned at time `now` all started a year or more before it, no event is
/// pruned twice, and at most `limit` (100 when none is given) are.
pub proof fn law_renew_prunes_only_old<T>(s: CalendarState<T>, now: Timestamp, limit: Option<u32>)
    requires
        s.wf(),
    ensures
        s.renew_ids(now, limit).len() <= (match limit {
            Some(l) => l,
            None => RENEW_DEFAULT_LIMIT,
        }),
        forall|i: int|
            0 <= i < s.renew_ids(now, limit).len() ==> s.event_map().contains_key(
                #[trigger] s.renew_ids(now, limit)[i],
            ) && s.event_map()[s.renew_ids(now, limit)[i]].start_time.secs() <= renew_cutoff(now),
        forall|i: int, j: int|
            0 <= i < j < s.renew_ids(now, limit).len() ==> s.renew_ids(now, limit)[i]
                != s.renew_ids(now, limit)[j],
{
    let f = StartFilter { upper: Some(renew_cutoff(now)), open_only: false };
    let n = (match limit {
        Some(l) => l,
        None => RENEW_DEFAULT_LIMIT,
    }) as nat;
    law_walk_sound(s.event_map(), None, f, n);
    let w = s.renew_ids(now, limit);
    assert forall|i: int| 0 <= i < w.len() implies s.event_map().contains_key(#[trigger] w[i])
        && s.event_map()[w[i]].start_time.secs() <= renew_cutoff(now) by {
        assert(in_walk(s.event_map(), None, f, w[i]));
    }
    assert forall|i: int, j: int| 0 <= i < j < w.len() implies w[i] != w[j] by {
        assert(key_lt(start_key(s.event_map()[w[i]]), start_key(s.event_map()[w[j]])));
    }
}

/// The agenda lists only upcoming or active events starting from `from`, in start order,
/// at most 50 of them.
pub proof fn law_agenda_open_events<T>(s: CalendarState<T>, from: Option<Timestamp>, limit: Option<u32>)
    requires
        s.wf(),
    ensures
        s.agenda_spec(from, limit).len() <= AGENDA_MAX_LIMIT,
        forall|i: int|
            0 <= i < s.agenda_spec(from, limit).len() ==> s.event_map().contains_key(
                #[trigger] s.agenda_spec(from, limit)[i],
            ) && (s.event_map()[s.agenda_spec(from, limit)[i]].status == EventStatus::Upcoming
                || s.event_map()[s.agenda_spec(from, limit)[i]].status == EventStatus::Active),
{
    let lo = Some(
        KeyBound::Inclusive(
            match from {
                Some(t) => t.secs() as u64,
                None => 0,
            },
            0,
        ),
    );
    let f = StartFilter { upper: None, open_only: true };
    law_walk_sound(s.event_map(), lo, f, agenda_size(limit));
    let w = s.agenda_spec(from, limit);
    assert forall|i: int| 0 <= i < w.len() implies s.event_map().contains_key(#[trigger] w[i]) && (
    s.event_map()[w[i]].status == EventStatus::Upcoming || s.event_map()[w[i]].status
        == EventStatus::Active) by {
        assert(in_walk(s.event_map(), lo, f, w[i]));
    }
}

/// A listing by id lists at most `n` events, in strictly increasing id order, each after
/// `after` and of the status asked for.
pub proof fn law_id_walk_sound<T>(evs: Seq<(u64, Event<T>)>, after: Option<u64>, status: Option<EventStatus>, n: nat)
    requires
        ascending(evs),
    ensures
        id_walk(evs, after, status, n).len() <= n,
        forall|i: int|
            0 <= i < id_walk(evs, after, status, n).len() ==> exists|j: int|
                0 <= j < evs.len() && evs[j].0 == #[trigger] id_walk(evs, after, status, n)[i]
                    && (after matches Some(a) ==> a < evs[j].0) && (status matches Some(st)
                    ==> evs[j].1.status == st),
        forall|i: int, j: int|
            0 <= i < j < id_walk(evs, after, status, n).len() ==> id_walk(evs, after, status, n)[i]
                < id_walk(evs, after, status, n)[j],
    decreases evs.len(),
{
    if evs.len() > 0 && n > 0 {
        let rest = evs.drop_first();
        assert(ascending(rest)) by {
            assert forall|a: int, b: int| 0 <= a < b < rest.len() implies rest[a].0 < rest[b].0 by {
                assert(rest[a] == evs[a + 1] && rest[b] == evs[b + 1]);
            }
        }
        let e = evs[0];
        let keep = (after matches Some(a) ==> a < e.0) && (status matches Some(st) ==> e.1.status
            == st);
        let m = if keep {
            (n - 1) as nat
        } else {
            n
        };
        law_id_walk_sound(rest, after, status, m);
        let w = id_walk(evs, after, status, n);
        let r = id_walk(rest, after, status, m);
        assert forall|i: int| 0 <= i < w.len() implies exists|j: int|
            0 <= j < evs.len() && evs[j].0 == #[trigger] w[i] && (after matches Some(a) ==> a
                < evs[j].0) && (status matches Some(st) ==> evs[j].1.status == st) by {
            if keep && i == 0 {
                assert(evs[0].0 == w[0]);
            } else {
                let ri = if keep {
                    i - 1
                } else {
                    i
                };
                assert(w[i] == r[ri]);
                let jj = choose|jj: int|
                    0 <= jj < rest.len() && rest[jj].0 == #[trigger] r[ri] && (after matches Some(a)
                        ==> a < rest[jj].0) && (status matches Some(st) ==> rest[jj].1.status == st);
                assert(evs[jj + 1] == rest[jj]);
            }
        }
        assert forall|i: int, j: int| 0 <= i < j < w.len() implies w[i] < w[j] by {
            if keep {
                assert(w[j] == r[j - 1]);
                if i == 0 {
                    let jj = choose|jj: int|
                        0 <= jj < rest.len() && rest[jj].0 == #[trigger] r[j - 1] && (after matches Some(
                            a,
                        ) ==> a < rest[jj].0) && (status matches Some(st) ==> rest[jj].1.status
                            == st);
                    assert(evs[jj + 1] == rest[jj]);
                    assert(evs[0].0 < evs[jj + 1].0);
                } else {
                    assert(w[i] == r[i - 1]);
                }
            } else {
                assert(w[i] == r[i] && w[j] == r[j]);
            }
        }
    }
}

/// Keeps the strings other than `s`.
pub open spec fn not_named(s: Seq<char>) -> spec_fn(String) -> bool {
    |g: String| g@ != s
}

/// The strings of `v` other than `s`, in order.
fn without_string(v: &Vec<String>, s: &String) -> (r: Vec<String>)
    ensures
        r@ == v@.filter(not_named(s@)),
{
    let ghost pred = not_named(s@);
    let mut out: Vec<String> = Vec::new();
    let mut i: usize = 0;
    while i < v.len()
        invariant
            i <= v@.len(),
            pred == not_named(s@),
            out@ == v@.take(i as int).filter(pred),
        decreases v.len() - i,
    {
        let keep = !(v[i] == *s);
        if keep {
            out.push(v[i].clone());
        }
        proof {
            reveal_with_fuel(Seq::filter, 1);
            assert(v@.take(i + 1).drop_last() =~= v@.take(i as int));
            assert(v@.take(i + 1).last() == v@[i as int]);
        }
        i += 1;
    }
    assert(v@.take(i as int) =~= v@);
    out
}

/// The suppliers made from their initial form.
fn suppliers_of(inits: &Vec<EventSupplierInit>) -> (r: Vec<EventSupplier>)
    ensures
        suppliers_from(inits@, r@),
{
    let mut suppliers: Vec<EventSupplier> = Vec::new();
    let mut i: usize = 0;
    while i < inits.len()
        invariant
            i <= inits@.len(),
            suppliers@.len() == i,
            forall|j: int|
                0 <= j < i ==> #[trigger] suppliers@[j].contract == inits@[j].contract
                    && suppliers@[j].supplier_type == inits@[j].supplier_type,
        decreases inits.len() - i,
    {
        let sup = EventSupplier {
            contract: inits[i].contract.clone(),
            supplier_type: inits[i].supplier_type,
        };
        assert(sup.contract == inits@[i as int].contract);
        assert(sup.supplier_type == inits@[i as int].supplier_type);
        let ghost before = suppliers@;
        let ghost s0 = sup;
        suppliers.push(sup);
        assert(suppliers@ == before.push(s0));
        assert(suppliers@[i as int] == s0);
        assert forall|j: int| 0 <= j <= i implies #[trigger] suppliers@[j].contract == inits@[j].contract
            && suppliers@[j].supplier_type == inits@[j].supplier_type by {
            if j < i {
                assert(suppliers@[j] == before[j]);
                assert(before[j].contract == inits@[j].contract);
            } else {
                assert(suppliers@[j].contract == inits@[j].contract);
                assert(suppliers@[j].supplier_type == inits@[j].supplier_type);
            }
        }
        i += 1;
    }
    suppliers
}

} // verus!
