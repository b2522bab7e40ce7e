use dao_contracts::nostr_calendar::{
    cal_d, calendar_created_text, event_cancelled_text, event_created_text, event_d, nip52_kind_of, ContractError, MetadataExt, Nip52Kind, NipError,
    NostrCalendarState, PreProposeInfo, RawNostrEvent, KIND_CALENDAR, KIND_DATE_EVENT, KIND_TIME_EVENT,
};

#[test]
fn calendar_token_ids() {
    assert_eq!(cal_d(1), "cal/1");
    assert_eq!(cal_d(10), "cal/10");
    assert_eq!(cal_d(100), "cal/100");
    assert_eq!(cal_d(0), "cal/0");
    assert_eq!(cal_d(u64::MAX), format!("cal/{}", u64::MAX));
}

#[test]
fn event_token_ids() {
    assert_eq!(event_d("cal/1", 1), "evt/cal/1/1");
    assert_eq!(event_d("", 1), "evt/_/1");
    assert_eq!(event_d("cal/2", 10), "evt/cal/2/10");
}

#[test]
fn metadata_default_is_a_calendar_kept_off_chain() {
    let m = MetadataExt::default();
    assert!(!m.on_chain);
    assert!(m.e.is_empty());
    assert_eq!(m.cid, None);
    assert_eq!(m.kind, KIND_CALENDAR);
    assert_eq!(m.kind, 31924);
    assert_eq!(m.calendar_d, None);
}

#[test]
fn metadata_contains_compares_kind_and_calendar() {
    let mut a = MetadataExt::offchain_metadata("cid-a".to_string(), KIND_TIME_EVENT);
    a.calendar_d = Some("cal/1".to_string());
    let mut b = MetadataExt::offchain_metadata("cid-b".to_string(), KIND_TIME_EVENT);
    b.calendar_d = Some("cal/1".to_string());
    assert!(a.contains(&b));
    b.calendar_d = Some("cal/2".to_string());
    assert!(!a.contains(&b));
    b.calendar_d = None;
    assert!(!a.contains(&b));
    let c = MetadataExt::offchain_metadata("cid-c".to_string(), KIND_DATE_EVENT);
    assert!(!c.contains(&b));
}

#[test]
fn metadata_kind_content_and_validation() {
    let off = MetadataExt::offchain_metadata("bafy".to_string(), KIND_DATE_EVENT);
    assert_eq!(off.nip_kind(None), Nip52Kind::DateEvent);
    assert_eq!(off.content(None), "bafy");
    assert!(off.validate(Ok(())).is_ok());
    assert!(!off.location());

    let mut no_cid = MetadataExt::default();
    no_cid.kind = KIND_TIME_EVENT;
    assert_eq!(no_cid.nip_kind(None), Nip52Kind::TimeEvent);
    assert_eq!(no_cid.content(None), "");
    match no_cid.validate(Ok(())) {
        Err(NipError::Validation { msg }) => assert_eq!(msg, "Off-chain metadata must have a CID"),
        other => panic!("unexpected {other:?}"),
    }

    let mut on = MetadataExt::default();
    on.on_chain = true;
    assert!(on.location());
    match on.validate(Ok(())) {
        Err(NipError::Validation { msg }) => assert_eq!(msg, "Empty event data"),
        other => panic!("unexpected {other:?}"),
    }
    on.e = vec![1, 2, 3];
    assert!(on.validate(Ok(())).is_ok());
    assert_eq!(on.nip_kind(Some(Nip52Kind::DateEvent)), Nip52Kind::DateEvent);
    assert_eq!(on.nip_kind(None), Nip52Kind::TimeEvent);
    assert_eq!(on.content(Some("hello".to_string())), "hello");
    assert_eq!(on.content(None), "");
}

#[test]
fn raw_event_kinds() {
    assert_eq!(nip52_kind_of(31924), Some(Nip52Kind::Calendar));
    assert_eq!(nip52_kind_of(31922), Some(Nip52Kind::DateEvent));
    assert_eq!(nip52_kind_of(31923), Some(Nip52Kind::TimeEvent));
    assert_eq!(nip52_kind_of(1), None);
    assert_eq!(Nip52Kind::TimeEvent.kind_value(), 31923);
}

#[test]
fn calendars_and_events_are_numbered() {
    let mut s = NostrCalendarState::instantiate("dao".to_string(), None);
    let bob = "bob".to_string();
    let (d1, owner1) = s.create_calendar(bob.clone(), None);
    assert_eq!(d1, "cal/1");
    // The owner defaults to the sender.
    assert_eq!(owner1, "bob");
    let (d2, owner2) = s.create_calendar(bob.clone(), Some("alice".to_string()));
    assert_eq!(d2, "cal/2");
    assert_eq!(owner2, "alice");
    assert_eq!(s.calendar_count, 2);

    let (e1, ext1) = s.create_event(&bob, "cal/1".to_string(), MetadataExt::default()).unwrap();
    assert_eq!(e1, "evt/cal/1/1");
    assert_eq!(ext1.calendar_d, Some("cal/1".to_string()));
    let (e2, _) = s.create_event(&bob, "cal/1".to_string(), MetadataExt::default()).unwrap();
    assert_eq!(e2, "evt/cal/1/2");
    let (e3, ext3) = s.create_event(&"eve".to_string(), String::new(), MetadataExt::default()).unwrap();
    assert_eq!(e3, "evt/_/1");
    assert_eq!(ext3.calendar_d, None);

    // Only the calendar's owner adds events to it.
    let err = s.create_event(&bob, "cal/2".to_string(), MetadataExt::default()).unwrap_err();
    assert!(matches!(err, ContractError::Unauthorized {}));
    let err = s.create_event(&bob, "cal/9".to_string(), MetadataExt::default()).unwrap_err();
    assert!(matches!(err, ContractError::Std { msg } if msg == "cal/9 not found"));

    assert_eq!(s.query_event_count(), 3);
}

#[test]
fn only_the_dao_manages_hooks_and_delegation() {
    let mut s = NostrCalendarState::instantiate("dao".to_string(), None);
    assert!(matches!(
        s.add_calendar_hook("eve".to_string(), "hook".to_string()),
        Err(ContractError::Unauthorized {})
    ));
    s.add_calendar_hook("dao".to_string(), "hook".to_string()).unwrap();
    assert!(matches!(
        s.add_calendar_hook("dao".to_string(), "hook".to_string()),
        Err(ContractError::HookError(_))
    ));
    s.remove_calendar_hook("dao".to_string(), "hook".to_string()).unwrap();
    assert!(s.hooks.is_empty());
    assert!(matches!(
        s.update_delegation_module("eve".to_string(), "m".to_string()),
        Err(ContractError::Unauthorized {})
    ));
    s.update_delegation_module("dao".to_string(), "m".to_string()).unwrap();
    assert_eq!(s.delegation_module, Some("m".to_string()));
    assert!(matches!(
        s.update_pre_propose_info(&"eve".to_string(), PreProposeInfo::AnyoneMayPropose),
        Err(ContractError::Unauthorized {})
    ));
    assert!(!s.anyone_may_propose);
    s.update_pre_propose_info(&"dao".to_string(), PreProposeInfo::AnyoneMayPropose).unwrap();
    assert!(s.anyone_may_propose);
    let module = PreProposeInfo::ModuleMayPropose { code_id: 1, msg: b"{}".to_vec(), label: "m".to_string(), admin: None };
    s.update_pre_propose_info(&"dao".to_string(), module).unwrap();
    assert!(!s.anyone_may_propose);
    assert!(NostrCalendarState::check_minter(&Some("m".to_string()), &"x".to_string()).is_err());
    assert!(NostrCalendarState::check_minter(&None, &"x".to_string()).is_ok());
}

#[test]
fn a_failed_calendar_hook_reply_unregisters_the_hook() {
    let mut s = NostrCalendarState::instantiate("dao".to_string(), None);
    s.add_calendar_hook("dao".to_string(), "a".to_string()).unwrap();
    s.add_calendar_hook("dao".to_string(), "b".to_string()).unwrap();
    assert!(matches!(s.reply(3), Err(ContractError::InvalidReplyID { id: 3 })));
    let (addr, idx) = s.reply(1_000_000).unwrap();
    assert_eq!((addr.as_str(), idx), ("a", 0));
    assert_eq!(s.hooks, vec!["b".to_string()]);
}

#[test]
fn raw_events_become_onchain_metadata() {
    let err = MetadataExt::from_raw_event(1, "id".to_string(), "pk".to_string(), Ok((None, vec![])))
        .unwrap_err();
    assert!(matches!(err, NipError::Validation { msg } if msg == "unsupported kind 1 for calendar/event"));

    let cal = MetadataExt::from_raw_event(
        KIND_CALENDAR,
        "id".to_string(),
        "pk".to_string(),
        Ok((Some("d".to_string()), b"{}".to_vec())),
    )
    .unwrap();
    assert!(cal.on_chain);
    assert_eq!(cal.e, b"{}".to_vec());
    assert_eq!(cal.d_tag, Some("d".to_string()));
    assert_eq!(cal.kind, KIND_CALENDAR);
    assert!(cal.nostr_e_d.is_none() && cal.author_pubkey.is_none() && cal.cid.is_none());

    let ev = MetadataExt::from_raw_event(KIND_TIME_EVENT, "id".to_string(), "pk".to_string(), Ok((None, b"x".to_vec())))
        .unwrap();
    assert_eq!(ev.nostr_e_d, Some("id".to_string()));
    assert_eq!(ev.author_pubkey, Some("pk".to_string()));
    assert!(ev.calendar_d.is_none());

    let failed = MetadataExt::from_raw_event(
        KIND_DATE_EVENT,
        "id".to_string(),
        "pk".to_string(),
        Err(NipError::MissingField { msg: "start".to_string() }),
    );
    assert!(matches!(failed, Err(NipError::MissingField { msg }) if msg == "start"));
}

#[test]
fn onchain_metadata_becomes_a_raw_event() {
    let off = MetadataExt::offchain_metadata("cid".to_string(), KIND_TIME_EVENT);
    assert!(off.to_tags(Some(vec![vec!["t".to_string()]])).is_empty());
    let err = off.into_event("pk", 5, Ok((vec![], String::new()))).unwrap_err();
    assert!(matches!(err, NipError::MissingField { msg } if msg == "Off-chain events must be resolved via CID; use the IPFS pointer"));

    let on = MetadataExt::from_raw_event(KIND_TIME_EVENT, "id".to_string(), "author".to_string(), Ok((None, b"x".to_vec())))
        .unwrap();
    assert_eq!(on.to_tags(Some(vec![vec!["t".to_string()]])), vec![vec!["t".to_string()]]);
    assert!(on.to_tags(None).is_empty());
    let ev: RawNostrEvent = on
        .into_event("other", 7, Ok((vec![vec!["title".to_string(), "x".to_string()]], "body".to_string())))
        .unwrap();
    assert_eq!(ev.pubkey, "author");
    assert_eq!(ev.created_at, 7);
    assert_eq!(ev.kind, KIND_TIME_EVENT);
    assert_eq!(ev.content, "body");
    assert_eq!(ev.tags.len(), 1);
    assert!(ev.id.is_empty() && ev.sig.is_empty());

    let mut anon = MetadataExt::default();
    anon.on_chain = true;
    assert_eq!(anon.into_event("pk", 1, Ok((vec![], String::new()))).unwrap().pubkey, "pk");
    let mut bad = MetadataExt::default();
    bad.on_chain = true;
    assert!(matches!(
        bad.into_event("pk", 1, Err(NipError::Validation { msg: "bad".to_string() })),
        Err(NipError::Validation { msg }) if msg == "bad"
    ));
}

#[test]
fn only_the_owner_hands_a_calendar_over() {
    let mut s = NostrCalendarState::instantiate("dao".to_string(), None);
    let bob = "bob".to_string();
    let (d, _) = s.create_calendar(bob.clone(), None);
    let err = s.transfer_calendar(&"eve".to_string(), &d, "ann".to_string());
    assert!(matches!(err, Err(ContractError::Unauthorized {})));
    let err = s.transfer_calendar(&bob, &"cal/7".to_string(), "ann".to_string());
    assert!(matches!(err, Err(ContractError::Std { .. })));
    s.transfer_calendar(&bob, &d, "ann".to_string()).unwrap();
    // The new owner now holds it: the old one can no longer add events.
    assert!(matches!(s.create_event(&bob, d.clone(), MetadataExt::default()), Err(ContractError::Unauthorized {})));
    s.create_event(&"ann".to_string(), d, MetadataExt::default()).unwrap();
}

#[test]
fn hooks_are_told_what_happened() {
    assert_eq!(calendar_created_text("cal/1"), "calendar_created:cal/1");
    assert_eq!(event_created_text("cal/1", "evt/cal/1/2"), "event_created:cal/1:evt/cal/1/2");
    assert_eq!(event_created_text("", "evt/_/1"), "event_created::evt/_/1");
    assert_eq!(event_cancelled_text("evt/_/1"), "event_cancelled:evt/_/1");
}

#[test]
fn token_ids_never_collide() {
    assert_ne!(event_d("cal/1", 23), event_d("cal/12", 3));
    assert_ne!(event_d("cal/1", 1), event_d("", 1));
    assert_ne!(cal_d(1), event_d("", 1));
}

#[test]
fn token_ids_are_prefix_free() {
    assert!(!event_d("cal/10", 3).starts_with(&format!("evt/{}/", cal_d(1))));
    assert!(!event_d("cal/1", 3).starts_with(&format!("evt/{}/", cal_d(10))));
    assert!(event_d("cal/1", 3).starts_with(&format!("evt/{}/", cal_d(1))));
    assert!(!event_d("", 7).starts_with("evt/cal/"));
}
