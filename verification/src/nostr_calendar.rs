//! Calendar proposal module: calendars and their NIP-52 events are NFTs whose token ids
//! follow a fixed scheme, `cal/{n}` for calendars and `evt/{calendar}/{n}` (or
//! `evt/_/{n}` without a calendar) for events.
use vstd::prelude::*;

use crate::hooks::{add_hook, hook_view, remove_hook, remove_hook_by_index, HookError};
use crate::keyed::{as_map, get_key, keys_unique, set_key};
use crate::text::{decimal, lemma_decimal_injective, push_decimal};

verus! {

pub const CALENDAR_PREFIX: &'static str = "cal";

pub const EVENT_PREFIX: &'static str = "evt";

pub const STANDALONE_TOKEN: &'static str = "_";

pub const FAILED_HOOK_REPLY_ID_BASE: u64 = 1_000_000;

/// Nostr kind of a calendar.
pub const KIND_CALENDAR: u16 = 31924;

/// Nostr kind of a date-based calendar event.
pub const KIND_DATE_EVENT: u16 = 31922;

/// Nostr kind of a time-based calendar event.
pub const KIND_TIME_EVENT: u16 = 31923;

/// The token id of calendar number `counter`: `cal/{counter}`.
pub open spec fn cal_d_spec(counter: u64) -> Seq<char> {
    seq!['c', 'a', 'l', '/'] + decimal(counter as nat)
}

/// The token id of event number `counter` of calendar `d`: `evt/{d}/{counter}`, or
/// `evt/_/{counter}` for a standalone event (`d` empty).
pub open spec fn event_d_spec(d: Seq<char>, counter: u64) -> Seq<char> {
    if d.len() == 0 {
        seq!['e', 'v', 't', '/', '_', '/'] + decimal(counter as nat)
    } else {
        seq!['e', 'v', 't', '/'] + d + seq!['/'] + decimal(counter as nat)
    }
}

fn push_chars(s: &mut String, cs: &[char])
    ensures
        final(s)@ == old(s)@ + cs@,
{
    let mut i: usize = 0;
    while i < cs.len()
        invariant
            i <= cs@.len(),
            s@ == old(s)@ + cs@.take(i as int),
        decreases cs.len() - i,
    {
        crate::text::push_char(s, cs[i]);
        assert(cs@.take(i + 1) =~= cs@.take(i as int).push(cs@[i as int]));
        i += 1;
    }
    assert(cs@.take(i as int) =~= cs@);
}

/// Generate a calendar token ID.
pub fn cal_d(counter: u64) -> (s: String)
    ensures
        s@ == cal_d_spec(counter),
{
    let mut s = String::from_str(CALENDAR_PREFIX);
    proof {
        reveal_strlit("cal");
    }
    push_chars(&mut s, &['/']);
    push_decimal(&mut s, counter);
    assert(s@ =~= cal_d_spec(counter));
    s
}

/// Generate an event token ID.
pub fn event_d(d: &str, event_counter: u64) -> (s: String)
    ensures
        s@ == event_d_spec(d@, event_counter),
{
    let mut s = String::from_str(EVENT_PREFIX);
    proof {
        reveal_strlit("evt");
        reveal_strlit("_");
    }
    push_chars(&mut s, &['/']);
    if d.is_empty() {
        s.append(STANDALONE_TOKEN);
    } else {
        s.append(d);
    }
    push_chars(&mut s, &['/']);
    push_decimal(&mut s, event_counter);
    assert(s@ =~= event_d_spec(d@, event_counter));
    s
}

/// What calendar hooks are told when calendar `d` is created.
pub fn calendar_created_text(d: &str) -> (s: String)
    ensures
        s@ == "calendar_created:"@ + d@,
{
    let mut s = String::from_str("calendar_created:");
    s.append(d);
    s
}

/// What calendar hooks are told when event `e_d` of calendar `d` is created.
pub fn event_created_text(d: &str, e_d: &str) -> (s: String)
    ensures
        s@ == "event_created:"@ + d@ + ":"@ + e_d@,
{
    let mut s = String::from_str("event_created:");
    s.append(d);
    s.append(":");
    s.append(e_d);
    s
}

/// What calendar hooks are told when event `e_d` is cancelled.
pub fn event_cancelled_text(e_d: &str) -> (s: String)
    ensures
        s@ == "event_cancelled:"@ + e_d@,
{
    let mut s = String::from_str("event_cancelled:");
    s.append(e_d);
    s
}

// ═══════════════════════════ Token metadata ═══════════════════════════

#[derive(Clone, Copy, Debug, PartialEq, Eq, Structural)]
pub enum Nip52Kind {
    Calendar,
    DateEvent,
    TimeEvent,
}

impl Nip52Kind {
    pub open spec fn value(self) -> u16 {
        match self {
            Nip52Kind::Calendar => KIND_CALENDAR,
            Nip52Kind::DateEvent => KIND_DATE_EVENT,
            Nip52Kind::TimeEvent => KIND_TIME_EVENT,
        }
    }

    pub fn kind_value(&self) -> (k: u16)
        ensures
            k == self.value(),
    {
        match self {
            Nip52Kind::Calendar => KIND_CALENDAR,
            Nip52Kind::DateEvent => KIND_DATE_EVENT,
            Nip52Kind::TimeEvent => KIND_TIME_EVENT,
        }
    }
}

/// The calendar kind a raw Nostr event of kind `kind` stands for, if it is one.
pub fn nip52_kind_of(kind: u16) -> (r: Option<Nip52Kind>)
    ensures
        r matches Some(k) ==> k.value() == kind,
        r is None <==> kind != KIND_CALENDAR && kind != KIND_DATE_EVENT && kind != KIND_TIME_EVENT,
{
    if kind == KIND_CALENDAR {
        Some(Nip52Kind::Calendar)
    } else if kind == KIND_DATE_EVENT {
        Some(Nip52Kind::DateEvent)
    } else if kind == KIND_TIME_EVENT {
        Some(Nip52Kind::TimeEvent)
    } else {
        None
    }
}

/// NFT metadata of a calendar or an event.
#[derive(Debug)]
pub struct MetadataExt {
    /// `true`: the full Nostr event is stored on chain in `e`; `false`: only an IPFS CID.
    pub on_chain: bool,
    /// Encoded NIP-52 metadata (on chain); empty when off chain.
    pub e: Vec<u8>,
    /// IPFS CID of the full Nostr event JSON (off chain only).
    pub cid: Option<String>,
    /// Nostr event kind.
    pub kind: u16,
    /// Cached d-tag for addressable events.
    pub d_tag: Option<String>,
    /// The raw Nostr event id, for verification.
    pub nostr_e_d: Option<String>,
    /// The author's public key.
    pub author_pubkey: Option<String>,
    /// Token id of the parent calendar, `None` for standalone events.
    pub calendar_d: Option<String>,
}

#[derive(Debug)]
pub enum NipError {
    Validation { msg: String },
    MissingField { msg: String },
}

/// Two optional strings agree: both absent, or both present with the same text.
pub open spec fn same_opt(a: Option<String>, b: Option<String>) -> bool {
    match (a, b) {
        (Some(x), Some(y)) => x@ == y@,
        (None, None) => true,
        _ => false,
    }
}

fn opt_eq(a: &Option<String>, b: &Option<String>) -> (r: bool)
    ensures
        r == same_opt(*a, *b),
{
    match (a, b) {
        (Some(x), Some(y)) => *x == *y,
        (None, None) => true,
        _ => false,
    }
}

impl Default for MetadataExt {
    fn default() -> (m: Self)
        ensures
            !m.on_chain,
            m.e@.len() == 0,
            m.cid is None,
            m.kind == KIND_CALENDAR,
            m.d_tag is None,
            m.nostr_e_d is None,
            m.author_pubkey is None,
            m.calendar_d is None,
    {
        MetadataExt {
            on_chain: false,
            e: Vec::new(),
            cid: None,
            kind: KIND_CALENDAR,
            d_tag: None,
            nostr_e_d: None,
            author_pubkey: None,
            calendar_d: None,
        }
    }
}

impl MetadataExt {
    /// Two metadata match when their kind and calendar agree (the other fields are
    /// event-specific).
    pub fn contains(&self, other: &Self) -> (r: bool)
        ensures
            r == (self.kind == other.kind && same_opt(self.calendar_d, other.calendar_d)),
    {
        self.kind == other.kind && opt_eq(&self.calendar_d, &other.calendar_d)
    }

    /// Whether the metadata is stored on chain.
    pub fn location(&self) -> (r: bool)
        ensures
            r == self.on_chain,
    {
        self.on_chain
    }

    /// Metadata of an event kept off chain, under IPFS CID `cid`.
    pub fn offchain_metadata(cid: String, kind: u16) -> (m: Self)
        ensures
            !m.on_chain,
            m.e@.len() == 0,
            m.cid == Some(cid),
            m.kind == kind,
            m.d_tag is None,
            m.nostr_e_d is None,
            m.author_pubkey is None,
            m.calendar_d is None,
    {
        MetadataExt {
            on_chain: false,
            e: Vec::new(),
            cid: Some(cid),
            kind,
            d_tag: None,
            nostr_e_d: None,
            author_pubkey: None,
            calendar_d: None,
        }
    }

    /// The calendar kind: for on-chain metadata, the kind of the decoded event
    /// (`decoded`, time-based when it cannot be decoded); off chain, date-based for
    /// kind 31922 and time-based otherwise.
    pub fn nip_kind(&self, decoded: Option<Nip52Kind>) -> (k: Nip52Kind)
        ensures
            self.on_chain ==> k == (match decoded {
                Some(d) => d,
                None => Nip52Kind::TimeEvent,
            }),
            !self.on_chain ==> k == (if self.kind == KIND_DATE_EVENT {
                Nip52Kind::DateEvent
            } else {
                Nip52Kind::TimeEvent
            }),
    {
        if self.on_chain {
            match decoded {
                Some(d) => d,
                None => Nip52Kind::TimeEvent,
            }
        } else if self.kind == KIND_DATE_EVENT {
            Nip52Kind::DateEvent
        } else {
            Nip52Kind::TimeEvent
        }
    }

    /// Checks the metadata: on chain, the event data must not be empty and must decode
    /// and validate (`decoded`, the decoder's answer); off chain, a CID is required.
    pub fn validate(&self, decoded: Result<(), NipError>) -> (r: Result<(), NipError>)
        ensures
            self.on_chain && self.e@.len() == 0 ==> (r matches Err(NipError::Validation { msg })
                && msg@ == "Empty event data"@),
            self.on_chain && self.e@.len() > 0 ==> r == decoded,
            !self.on_chain && self.cid is None ==> (r matches Err(NipError::Validation { msg })
                && msg@ == "Off-chain metadata must have a CID"@),
            !self.on_chain && self.cid is Some ==> r is Ok,
    {
        if self.on_chain {
            if self.e.len() == 0 {
                return Err(NipError::Validation { msg: String::from_str("Empty event data") });
            }
            decoded
        } else {
            if self.cid.is_none() {
                return Err(
                    NipError::Validation { msg: String::from_str("Off-chain metadata must have a CID") },
                );
            }
            Ok(())
        }
    }

    /// The event's content: on chain, the decoded content (`decoded`, empty when it
    /// cannot be decoded); off chain, the CID (empty when none).
    pub fn content(&self, decoded: Option<String>) -> (s: String)
        ensures
            self.on_chain ==> s@ == (match decoded {
                Some(c) => c@,
                None => Seq::<char>::empty(),
            }),
            !self.on_chain ==> s@ == (match self.cid {
                Some(c) => c@,
                None => Seq::<char>::empty(),
            }),
    {
        if self.on_chain {
            match decoded {
                Some(c) => c,
                None => String::new(),
            }
        } else {
            match &self.cid {
                Some(c) => c.clone(),
                None => String::new(),
            }
        }
    }

    pub fn d_tag(&self) -> (r: Option<String>)
        ensures
            r == self.d_tag,
    {
        match &self.d_tag {
            Some(t) => Some(t.clone()),
            None => None,
        }
    }
}

/// A raw Nostr event.
#[derive(Debug)]
pub struct RawNostrEvent {
    pub id: String,
    pub pubkey: String,
    pub created_at: u64,
    pub kind: u16,
    pub tags: Vec<Vec<String>>,
    pub content: String,
    pub sig: String,
}

/// A Nostr kind of NIP-52: a calendar, a date-based or a time-based event.
pub open spec fn calendar_kind(kind: u16) -> bool {
    kind == KIND_CALENDAR || kind == KIND_DATE_EVENT || kind == KIND_TIME_EVENT
}

/// The refusal of a raw event whose kind is no calendar kind.
pub open spec fn unsupported_kind_msg(kind: u16) -> Seq<char> {
    "unsupported kind "@ + decimal(kind as nat) + " for calendar/event"@
}

impl MetadataExt {
    /// The event's tags: on chain, the decoded tags (`decoded`, none when the stored
    /// event cannot be decoded); off chain, none.
    pub fn to_tags(&self, decoded: Option<Vec<Vec<String>>>) -> (r: Vec<Vec<String>>)
        ensures
            self.on_chain && decoded is Some ==> r == decoded->0,
            !(self.on_chain && decoded is Some) ==> r@.len() == 0,
    {
        if self.on_chain {
            match decoded {
                Some(t) => t,
                None => Vec::new(),
            }
        } else {
            Vec::new()
        }
    }

    /// On-chain metadata for a raw NIP-52 event of kind `kind`, with id `event_id` and
    /// author `pubkey`. `decoded` is the NIP-52 decoder's answer for the event: its
    /// d tag and its JSON encoding, or the decoder's error. A kind that is no calendar
    /// kind is refused first; a calendar keeps neither event id nor author.
    pub fn from_raw_event(
        kind: u16,
        event_id: String,
        pubkey: String,
        decoded: Result<(Option<String>, Vec<u8>), NipError>,
    ) -> (r: Result<Self, NipError>)
        ensures
            !calendar_kind(kind) ==> (r matches Err(NipError::Validation { msg }) && msg@
                == unsupported_kind_msg(kind)),
            calendar_kind(kind) ==> match decoded {
                Err(er) => r == Err::<Self, NipError>(er),
                Ok((d_tag, e)) => r == Ok::<Self, NipError>(
                    MetadataExt {
                        on_chain: true,
                        e,
                        cid: None,
                        kind,
                        d_tag,
                        nostr_e_d: if kind == KIND_CALENDAR {
                            None
                        } else {
                            Some(event_id)
                        },
                        author_pubkey: if kind == KIND_CALENDAR {
                            None
                        } else {
                            Some(pubkey)
                        },
                        calendar_d: None,
                    },
                ),
            },
    {
        let which = match nip52_kind_of(kind) {
            Some(k) => k,
            None => {
                let mut msg = String::from_str("unsupported kind ");
                push_decimal(&mut msg, kind as u64);
                msg.append(" for calendar/event");
                proof {
                    reveal_strlit("unsupported kind ");
                    reveal_strlit(" for calendar/event");
                }
                assert(msg@ =~= unsupported_kind_msg(kind));
                return Err(NipError::Validation { msg });
            },
        };
        let (d_tag, e) = decoded?;
        match which {
            Nip52Kind::Calendar => Ok(
                MetadataExt {
                    on_chain: true,
                    e,
                    cid: None,
                    kind,
                    d_tag,
                    nostr_e_d: None,
                    author_pubkey: None,
                    calendar_d: None,
                },
            ),
            _ => Ok(
                MetadataExt {
                    on_chain: true,
                    e,
                    cid: None,
                    kind,
                    d_tag,
                    nostr_e_d: Some(event_id),
                    author_pubkey: Some(pubkey),
                    calendar_d: None,
                },
            ),
        }
    }

    /// The raw Nostr event of on-chain metadata, before its id is computed (the id is
    /// left empty for the caller to fill in). `decoded` is the decoder's answer for the
    /// stored event: its tags and content, or its error. The author is the stored one,
    /// else `pubkey`. Off-chain metadata is refused: it must be resolved through its CID.
    pub fn into_event(
        self,
        pubkey: &str,
        created_at: u64,
        decoded: Result<(Vec<Vec<String>>, String), NipError>,
    ) -> (r: Result<RawNostrEvent, NipError>)
        ensures
            !self.on_chain ==> (r matches Err(NipError::MissingField { msg }) && msg@
                == "Off-chain events must be resolved via CID; use the IPFS pointer"@),
            self.on_chain ==> match decoded {
                Err(er) => r == Err::<RawNostrEvent, NipError>(er),
                Ok((tags, content)) => r matches Ok(ev) && ev.id@.len() == 0 && ev.sig@.len() == 0
                    && ev.pubkey@ == (match self.author_pubkey {
                    Some(a) => a@,
                    None => pubkey@,
                }) && ev.created_at == created_at && ev.kind == self.kind && ev.tags == tags
                    && ev.content == content,
            },
    {
        if !self.on_chain {
            return Err(
                NipError::MissingField {
                    msg: String::from_str("Off-chain events must be resolved via CID; use the IPFS pointer"),
                },
            );
        }
        let (tags, content) = decoded?;
        let author = match self.author_pubkey {
            Some(a) => a,
            None => pubkey.to_owned(),
        };
        Ok(
            RawNostrEvent {
                id: String::new(),
                pubkey: author,
                created_at,
                kind: self.kind,
                tags,
                content,
                sig: String::new(),
            },
        )
    }
}

// ═══════════════════════════ Messages ═══════════════════════════

#[derive(Debug)]
pub enum MigrateMsg {
    FromCompatible {},
}

#[derive(Debug)]
pub enum QueryExt {
    Config {},
    Calendar { d: String },
    ListCalendars { start_after: Option<String>, limit: Option<u32> },
    CalendarEvent { e_d: String },
    CalendarEvents { d: String, start_after: Option<String>, limit: Option<u32> },
    CalendarCount {},
    EventCount {},
    ProposalCreationPolicy {},
    DelegationModule {},
    Hooks,
    Info {},
    Dao {},
}

#[derive(Debug)]
pub enum ContractError {
    Std { msg: String },
    HookError(HookError),
    Unauthorized {},
    NoSuchCalendar { d: String },
    NoSuchEvent { d: String, e_d: String },
    CalendarNotActive(String),
    EventNotUpcoming { e_d: String },
    InvalidTimeRange {},
    InvalidTimezone { tz: String },
    InvalidReplyID { id: u64 },
    StartAfterEnd {},
}

/// How proposals may be created: by anyone, or through a pre-propose module that is
/// instantiated from `code_id` with `msg`.
#[derive(Debug)]
pub enum PreProposeInfo {
    AnyoneMayPropose,
    ModuleMayPropose { code_id: u64, msg: Vec<u8>, label: String, admin: Option<String> },
}

/// The storage's not-found error for a calendar token that is not stored. Its text is
/// `{d} not found`: the calendar id stands where the storage names the stored type and key.
pub open spec fn not_found_text(d: Seq<char>) -> Seq<char> {
    d + " not found"@
}

fn not_found(d: &String) -> (e: ContractError)
    ensures
        e matches ContractError::Std { msg } && msg@ == not_found_text(d@),
{
    let mut msg = d.clone();
    msg.append(" not found");
    ContractError::Std { msg }
}

// ═══════════════════════════ State ═══════════════════════════

/// The module's own state (the NFTs themselves live in the collection).
#[derive(Debug)]
pub struct NostrCalendarState {
    pub dao: String,
    /// Number of calendars created.
    pub calendar_count: u64,
    /// calendar token id (empty for standalone events) -> number of its events.
    pub event_counts: Vec<(String, u64)>,
    /// Contracts told of calendar changes.
    pub hooks: Vec<String>,
    pub delegation_module: Option<String>,
    /// Proposal creation is open to anyone (the creation policy).
    pub anyone_may_propose: bool,
    /// calendar token id -> its owner.
    pub owners: Vec<(String, String)>,
}

impl NostrCalendarState {
    pub open spec fn wf(&self) -> bool {
        &&& keys_unique(self.event_counts@)
        &&& keys_unique(self.owners@)
    }

    /// The owner of each calendar.
    pub open spec fn owner_map(&self) -> Map<Seq<char>, String> {
        as_map(self.owners@)
    }

    pub open spec fn count_map(&self) -> Map<Seq<char>, u64> {
        as_map(self.event_counts@)
    }

    /// The number of events created under `d` so far.
    pub open spec fn count_of(&self, d: Seq<char>) -> u64 {
        if self.count_map().contains_key(d) {
            self.count_map()[d]
        } else {
            0
        }
    }

    /// The module instantiated by the DAO `dao`.
    pub fn instantiate(dao: String, delegation_module: Option<String>) -> (s: Self)
        ensures
            s.wf(),
            s.dao == dao,
            s.calendar_count == 0,
            s.count_map() == Map::<Seq<char>, u64>::empty(),
            s.hooks@.len() == 0,
            s.delegation_module == delegation_module,
            !s.anyone_may_propose,
            s.owner_map() == Map::<Seq<char>, String>::empty(),
    {
        let s = NostrCalendarState {
            dao,
            calendar_count: 0,
            event_counts: Vec::new(),
            hooks: Vec::new(),
            delegation_module,
            anyone_may_propose: false,
            owners: Vec::new(),
        };
        assert(s.count_map() =~= Map::<Seq<char>, u64>::empty());
        assert(s.owner_map() =~= Map::<Seq<char>, String>::empty());
        s
    }

    /// Only the collection's minter, when there is one, may execute.
    pub fn check_minter(minter: &Option<String>, sender: &String) -> (r: Result<(), ContractError>)
        ensures
            (minter matches Some(m) && m@ != sender@) ==> r == Err::<(), ContractError>(
                ContractError::Unauthorized {},
            ),
            !(minter matches Some(m) && m@ != sender@) ==> r is Ok,
    {
        match minter {
            Some(m) => if *m == *sender {
                Ok(())
            } else {
                Err(ContractError::Unauthorized {})
            },
            None => Ok(()),
        }
    }

    /// Creates a calendar: it is numbered after the last one, starts with no events and
    /// belongs to `owner`, or else to the sender. Hands back its token id and its owner.
    pub fn create_calendar(&mut self, sender: String, owner: Option<String>) -> (r: (String, String))
        requires
            old(self).wf(),
            old(self).calendar_count < u64::MAX,
        ensures
            final(self).wf(),
            final(self).calendar_count == old(self).calendar_count + 1,
            r.0@ == cal_d_spec(final(self).calendar_count),
            r.1 == (match owner {
                Some(o) => o,
                None => sender,
            }),
            final(self).count_map() == old(self).count_map().insert(r.0@, 0),
            final(self).owner_map() == old(self).owner_map().insert(r.0@, r.1),
            final(self).dao == old(self).dao,
            final(self).hooks == old(self).hooks,
            final(self).delegation_module == old(self).delegation_module,
            final(self).anyone_may_propose == old(self).anyone_may_propose,
    {
        let owner = match owner {
            Some(o) => o,
            None => sender,
        };
        let n = self.calendar_count + 1;
        let d = cal_d(n);
        self.calendar_count = n;
        set_key(&mut self.event_counts, d.clone(), 0);
        set_key(&mut self.owners, d.clone(), owner.clone());
        (d, owner)
    }

    /// Hands calendar `d` over to `recipient`; only its owner may.
    pub fn transfer_calendar(&mut self, sender: &String, d: &String, recipient: String) -> (r: Result<(), ContractError>)
        requires
            old(self).wf(),
        ensures
            final(self).wf(),
            !old(self).owner_map().contains_key(d@) ==> (r matches Err(ContractError::Std { msg })
                && msg@ == not_found_text(d@) && *final(self) == *old(self)),
            old(self).owner_map().contains_key(d@) && old(self).owner_map()[d@]@ != sender@ ==> r == Err::<
                (),
                ContractError,
            >(ContractError::Unauthorized {}) && *final(self) == *old(self),
            old(self).owner_map().contains_key(d@) && old(self).owner_map()[d@]@ == sender@ ==> r is Ok
                && final(self).owner_map() == old(self).owner_map().insert(d@, recipient)
                && *final(self) == (NostrCalendarState { owners: final(self).owners, ..*old(self) }),
    {
        match get_key(&self.owners, d) {
            None => Err(not_found(d)),
            Some(o) => {
                if *o != *sender {
                    return Err(ContractError::Unauthorized {});
                }
                set_key(&mut self.owners, d.clone(), recipient);
                Ok(())
            },
        }
    }

    /// Creates an event in calendar `d` (standalone when `d` is empty): it is numbered
    /// after the calendar's last one and tagged with its calendar. A named calendar must
    /// exist and belong to the sender. Hands back its token id and its metadata.
    pub fn create_event(&mut self, sender: &String, d: String, extension: MetadataExt) -> (r: Result<(String, MetadataExt), ContractError>)
        requires
            old(self).wf(),
            old(self).count_of(d@) < u64::MAX,
        ensures
            final(self).wf(),
            d@.len() > 0 && !old(self).owner_map().contains_key(d@) ==> (r matches Err(
                ContractError::Std { msg },
            ) && msg@ == not_found_text(d@) && *final(self) == *old(self)),
            d@.len() > 0 && old(self).owner_map().contains_key(d@) && old(self).owner_map()[d@]@
                != sender@ ==> r == Err::<(String, MetadataExt), ContractError>(
                ContractError::Unauthorized {},
            ) && *final(self) == *old(self),
            (d@.len() == 0 || (old(self).owner_map().contains_key(d@) && old(self).owner_map()[d@]@
                == sender@)) ==> (r matches Ok((e_d, ext)) && {
                let n = (old(self).count_of(d@) + 1) as u64;
                &&& e_d@ == event_d_spec(d@, n)
                &&& final(self).count_map() == old(self).count_map().insert(d@, n)
                &&& ext.calendar_d == (if d@.len() == 0 {
                    None
                } else {
                    Some(d)
                })
                &&& ext.on_chain == extension.on_chain && ext.e == extension.e
                &&& ext.cid == extension.cid && ext.kind == extension.kind
                &&& ext.d_tag == extension.d_tag && ext.nostr_e_d == extension.nostr_e_d
                &&& ext.author_pubkey == extension.author_pubkey
                &&& final(self).calendar_count == old(self).calendar_count
                &&& final(self).dao == old(self).dao
                &&& final(self).hooks == old(self).hooks
                &&& final(self).delegation_module == old(self).delegation_module
                &&& final(self).anyone_may_propose == old(self).anyone_may_propose
                &&& final(self).owners == old(self).owners
            }),
    {
        let empty = d.as_str().is_empty();
        if !empty {
            match get_key(&self.owners, &d) {
                None => return Err(not_found(&d)),
                Some(o) => {
                    if *o != *sender {
                        return Err(ContractError::Unauthorized {});
                    }
                },
            }
        }
        let current = match get_key(&self.event_counts, &d) {
            Some(c) => *c,
            None => 0,
        };
        let n = current + 1;
        let e_d = event_d(d.as_str(), n);
        set_key(&mut self.event_counts, d.clone(), n);
        let mut ext = extension;
        ext.calendar_d = if empty {
            None
        } else {
            Some(d)
        };
        Ok((e_d, ext))
    }

    /// The total number of events over all calendars.
    pub open spec fn total_events(counts: Seq<(String, u64)>) -> int
        decreases counts.len(),
    {
        if counts.len() == 0 {
            0
        } else {
            Self::total_events(counts.drop_last()) + counts.last().1
        }
    }

    pub fn query_event_count(&self) -> (r: u64)
        requires
            Self::total_events(self.event_counts@) <= u64::MAX,
        ensures
            r == Self::total_events(self.event_counts@),
    {
        let mut total: u64 = 0;
        let mut i: usize = 0;
        while i < self.event_counts.len()
            invariant
                i <= self.event_counts@.len(),
                total == Self::total_events(self.event_counts@.take(i as int)),
                Self::total_events(self.event_counts@) <= u64::MAX,
            decreases self.event_counts.len() - i,
        {
            assert(self.event_counts@.take(i + 1).drop_last() =~= self.event_counts@.take(i as int));
            proof {
                lemma_total_prefix(self.event_counts@, i + 1);
            }
            total = total + self.event_counts[i].1;
            i += 1;
        }
        assert(self.event_counts@.take(i as int) =~= self.event_counts@);
        total
    }

    /// Updates the proposal creation policy from `info`; only the DAO may. Creation is
    /// open to anyone for `AnyoneMayPropose`, and reserved to the module for
    /// `ModuleMayPropose` (whose instantiation message the caller sends).
    pub fn update_pre_propose_info(&mut self, sender: &String, info: PreProposeInfo) -> (r: Result<(), ContractError>)
        ensures
            sender@ != old(self).dao@ ==> r == Err::<(), ContractError>(ContractError::Unauthorized {})
                && *final(self) == *old(self),
            sender@ == old(self).dao@ ==> r is Ok && *final(self) == (NostrCalendarState {
                anyone_may_propose: info is AnyoneMayPropose,
                ..*old(self)
            }),
    {
        self.assert_dao(sender)?;
        self.anyone_may_propose = match info {
            PreProposeInfo::AnyoneMayPropose => true,
            PreProposeInfo::ModuleMayPropose { .. } => false,
        };
        Ok(())
    }

    fn assert_dao(&self, sender: &String) -> (r: Result<(), ContractError>)
        ensures
            sender@ == self.dao@ ==> r is Ok,
            sender@ != self.dao@ ==> r == Err::<(), ContractError>(ContractError::Unauthorized {}),
    {
        if *sender == self.dao {
            Ok(())
        } else {
            Err(ContractError::Unauthorized {})
        }
    }

    /// Sets the delegation module; only the DAO may.
    pub fn update_delegation_module(&mut self, sender: String, module: String) -> (r: Result<(), ContractError>)
        ensures
            sender@ != old(self).dao@ ==> r == Err::<(), ContractError>(ContractError::Unauthorized {})
                && *final(self) == *old(self),
            sender@ == old(self).dao@ ==> r is Ok && *final(self) == (NostrCalendarState {
                delegation_module: Some(module),
                ..*old(self)
            }),
    {
        self.assert_dao(&sender)?;
        self.delegation_module = Some(module);
        Ok(())
    }

    /// Registers a contract told of calendar changes; only the DAO may.
    pub fn add_calendar_hook(&mut self, sender: String, address: String) -> (r: Result<(), ContractError>)
        ensures
            sender@ != old(self).dao@ ==> r == Err::<(), ContractError>(ContractError::Unauthorized {})
                && *final(self) == *old(self),
            sender@ == old(self).dao@ && hook_view(old(self).hooks@).contains(address@) ==> r == Err::<
                (),
                ContractError,
            >(ContractError::HookError(HookError::HookAlreadyRegistered {})) && *final(self) == *old(self),
            sender@ == old(self).dao@ && !hook_view(old(self).hooks@).contains(address@) ==> r is Ok
                && final(self).hooks@ == old(self).hooks@.push(address) && *final(self)
                == (NostrCalendarState { hooks: final(self).hooks, ..*old(self) }),
    {
        self.assert_dao(&sender)?;
        match add_hook(&mut self.hooks, address) {
            Ok(()) => Ok(()),
            Err(e) => Err(ContractError::HookError(e)),
        }
    }

    /// Unregisters a contract told of calendar changes; only the DAO may.
    pub fn remove_calendar_hook(&mut self, sender: String, address: String) -> (r: Result<(), ContractError>)
        ensures
            sender@ != old(self).dao@ ==> r == Err::<(), ContractError>(ContractError::Unauthorized {})
                && *final(self) == *old(self),
            sender@ == old(self).dao@ && !hook_view(old(self).hooks@).contains(address@) ==> r == Err::<
                (),
                ContractError,
            >(ContractError::HookError(HookError::HookNotRegistered {})) && *final(self) == *old(self),
            sender@ == old(self).dao@ && hook_view(old(self).hooks@).contains(address@) ==> r is Ok
                && *final(self) == (NostrCalendarState { hooks: final(self).hooks, ..*old(self) })
                && exists|i: int|
                0 <= i < old(self).hooks@.len() && old(self).hooks@[i]@ == address@ && (forall|j: int|
                    0 <= j < i ==> old(self).hooks@[j]@ != address@) && final(self).hooks@ == old(
                    self,
                ).hooks@.remove(i),
    {
        self.assert_dao(&sender)?;
        match remove_hook(&mut self.hooks, &address) {
            Ok(()) => Ok(()),
            Err(e) => Err(ContractError::HookError(e)),
        }
    }

    /// Answers the reply to a submessage: a reply from a failed calendar hook (an id from
    /// `FAILED_HOOK_REPLY_ID_BASE` on) unregisters that hook and gives its address and
    /// index; any other id is refused.
    pub fn reply(&mut self, id: u64) -> (r: Result<(String, u64), ContractError>)
        requires
            id >= FAILED_HOOK_REPLY_ID_BASE ==> id - FAILED_HOOK_REPLY_ID_BASE < old(self).hooks@.len(),
        ensures
            id < FAILED_HOOK_REPLY_ID_BASE ==> r == Err::<(String, u64), ContractError>(
                ContractError::InvalidReplyID { id },
            ) && *final(self) == *old(self),
            id >= FAILED_HOOK_REPLY_ID_BASE ==> (r matches Ok((addr, idx)) && idx == id
                - FAILED_HOOK_REPLY_ID_BASE && addr == old(self).hooks@[idx as int]
                && final(self).hooks@ == old(self).hooks@.remove(idx as int) && *final(self) == (NostrCalendarState {
                hooks: final(self).hooks,
                ..*old(self)
            })),
    {
        if id >= FAILED_HOOK_REPLY_ID_BASE {
            let idx = id - FAILED_HOOK_REPLY_ID_BASE;
            let addr = remove_hook_by_index(&mut self.hooks, idx);
            Ok((addr, idx))
        } else {
            Err(ContractError::InvalidReplyID { id })
        }
    }
}

/// A prefix of the counts sums to no more than all of them.
proof fn lemma_total_prefix(counts: Seq<(String, u64)>, k: int)
    requires
        0 <= k <= counts.len(),
    ensures
        NostrCalendarState::total_events(counts.take(k)) <= NostrCalendarState::total_events(counts),
    decreases counts.len() - k,
{
    if k < counts.len() {
        lemma_total_prefix(counts, k + 1);
        assert(counts.take(k + 1).drop_last() =~= counts.take(k));
    } else {
        assert(counts.take(k) =~= counts);
    }
}

// ═══════════════════════════ Laws ═══════════════════════════

/// Calendars with different numbers have different token ids.
pub proof fn law_calendar_ids_distinct(a: u64, b: u64)
    requires
        a != b,
    ensures
        cal_d_spec(a) != cal_d_spec(b),
{
    if cal_d_spec(a) == cal_d_spec(b) {
        assert(cal_d_spec(a).skip(4) =~= decimal(a as nat));
        assert(cal_d_spec(b).skip(4) =~= decimal(b as nat));
        lemma_decimal_injective(a as nat, b as nat);
    }
}

/// Events of one calendar with different numbers have different token ids.
pub proof fn law_event_ids_distinct(d: Seq<char>, a: u64, b: u64)
    requires
        a != b,
    ensures
        event_d_spec(d, a) != event_d_spec(d, b),
{
    if event_d_spec(d, a) == event_d_spec(d, b) {
        let k: int = if d.len() == 0 {
            6
        } else {
            d.len() + 5int
        };
        assert(event_d_spec(d, a).skip(k) =~= decimal(a as nat));
        assert(event_d_spec(d, b).skip(k) =~= decimal(b as nat));
        lemma_decimal_injective(a as nat, b as nat);
    }
}

/// No calendar token id is an event token id: they start with different prefixes.
pub proof fn law_calendar_and_event_ids_differ(c: u64, d: Seq<char>, n: u64)
    ensures
        cal_d_spec(c) != event_d_spec(d, n),
{
    assert(cal_d_spec(c)[0] == 'c');
    assert(event_d_spec(d, n)[0] == 'e');
}

/// Events of different calendars get different token ids, whatever their numbers, and
/// none of them is the id of a standalone event.
pub proof fn law_event_ids_of_calendars_differ(c1: u64, c2: u64, a: u64, b: u64)
    requires
        c1 != c2,
    ensures
        event_d_spec(cal_d_spec(c1), a) != event_d_spec(cal_d_spec(c2), b),
        event_d_spec(cal_d_spec(c1), a) != event_d_spec(Seq::<char>::empty(), b),
{
    let (x1, x2) = (decimal(c1 as nat), decimal(c2 as nat));
    let e1 = event_d_spec(cal_d_spec(c1), a);
    let e2 = event_d_spec(cal_d_spec(c2), b);
    let pre = seq!['e', 'v', 't', '/', 'c', 'a', 'l', '/'];
    assert(e1 =~= pre + x1 + seq!['/'] + decimal(a as nat));
    assert(e2 =~= pre + x2 + seq!['/'] + decimal(b as nat));
    assert(event_d_spec(Seq::<char>::empty(), b)[4] == '_');
    assert(e1[4] == 'c');
    lemma_decimal_has_no_slash(c1 as nat);
    lemma_decimal_has_no_slash(c2 as nat);
    if e1 == e2 {
        let (k1, k2) = (x1.len() as int, x2.len() as int);
        assert(e1[8 + k1] == '/');
        assert(e2[8 + k2] == '/');
        if k1 < k2 {
            assert(e2[8 + k1] == x2[k1]);
            assert(x2.contains('/'));
        } else if k2 < k1 {
            assert(e1[8 + k2] == x1[k2]);
            assert(x1.contains('/'));
        } else {
            assert forall|i: int| 0 <= i < k1 implies x1[i] == x2[i] by {
                assert(e1[8 + i] == x1[i] && e2[8 + i] == x2[i]);
            }
            assert(x1 =~= x2);
            lemma_decimal_injective(c1 as nat, c2 as nat);
        }
    }
}

/// `s` starts with `p`.
pub open spec fn starts_with(s: Seq<char>, p: Seq<char>) -> bool {
    p.len() <= s.len() && s.take(p.len() as int) == p
}

/// Token ids are prefix-free across calendars: no event id of calendar `c1` starts with
/// `evt/{calendar c2}/` for another calendar `c2` (so `cal/1` and `cal/10` never mix),
/// and no standalone event id starts with `evt/cal/`.
pub proof fn law_event_ids_prefix_free(c1: u64, c2: u64, n1: u64, n2: u64)
    requires
        c1 != c2,
    ensures
        !starts_with(event_d_spec(cal_d_spec(c1), n1), seq!['e', 'v', 't', '/'] + cal_d_spec(c2) + seq!['/']),
        !starts_with(event_d_spec(Seq::<char>::empty(), n2), seq!['e', 'v', 't', '/', 'c', 'a', 'l', '/']),
{
    let (x1, x2) = (decimal(c1 as nat), decimal(c2 as nat));
    let pre = seq!['e', 'v', 't', '/', 'c', 'a', 'l', '/'];
    let e = event_d_spec(cal_d_spec(c1), n1);
    let p = seq!['e', 'v', 't', '/'] + cal_d_spec(c2) + seq!['/'];
    assert(e =~= pre + x1 + seq!['/'] + decimal(n1 as nat));
    assert(p =~= pre + x2 + seq!['/']);
    lemma_decimal_has_no_slash(c1 as nat);
    lemma_decimal_has_no_slash(c2 as nat);
    if starts_with(e, p) {
        let (k1, k2) = (x1.len() as int, x2.len() as int);
        assert forall|i: int| 0 <= i < p.len() implies e[i] == p[i] by {
            assert(e.take(p.len() as int)[i] == e[i]);
        }
        assert(e[8 + k1] == '/');
        assert(p[8 + k2] == '/');
        if k1 < k2 {
            assert(p[8 + k1] == x2[k1]);
            assert(x2.contains('/'));
        } else if k2 < k1 {
            assert(e[8 + k2] == x1[k2]);
            assert(x1.contains('/'));
        } else {
            assert forall|i: int| 0 <= i < k1 implies x1[i] == x2[i] by {
                assert(e[8 + i] == x1[i] && p[8 + i] == x2[i]);
            }
            assert(x1 =~= x2);
            lemma_decimal_injective(c1 as nat, c2 as nat);
        }
    }
    let sa = event_d_spec(Seq::<char>::empty(), n2);
    if starts_with(sa, pre) {
        assert(sa.take(8)[4] == sa[4]);
        assert(sa[4] == '_');
    }
}

proof fn lemma_decimal_has_no_slash(n: nat)
    ensures
        !decimal(n).contains('/'),
    decreases n,
{
    if n >= 10 {
        lemma_decimal_has_no_slash(n / 10);
        assert forall|i: int| 0 <= i < decimal(n).len() implies decimal(n)[i] != '/' by {
            if i < decimal(n / 10).len() {
                assert(decimal(n)[i] == decimal(n / 10)[i]);
            }
        }
    }
}

} // verus!
