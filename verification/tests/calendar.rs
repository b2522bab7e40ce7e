use dao_contracts::calendar::{
    vouch_step, VouchStep, ExecuteMsg, ExecuteOutcome,
    clamp_limit, failed_event_hook_id, is_valid_timezone, CalendarState, ContractError,
    EventFilter, EventServiceInit, EventStatus, EventSupplierInit, EventSupplierType, GroupInit,
};
use dao_contracts::hooks::HookError;
use dao_contracts::recurrence::{RecurrenceEnd, RecurrenceFrequency, RecurrenceRule};
use dao_contracts::timestamp::Timestamp;

const DAO: &str = "dao";
const DAY: u64 = 86_400;

fn t(secs: u64) -> Timestamp {
    Timestamp::from_seconds(secs)
}

fn group(id: &str, suppliers: Vec<EventSupplierInit>) -> GroupInit {
    GroupInit {
        id: id.to_string(),
        suppliers,
        name: None,
        description: None,
        color: None,
        members: Some(vec![]),
    }
}

fn calendar() -> CalendarState<()> {
    let mut s = CalendarState::<()>::new(DAO.to_string());
    s.execute_register_group(
        DAO.to_string(),
        group(
            "ops",
            vec![
                EventSupplierInit { contract: "auth1".to_string(), supplier_type: EventSupplierType::Authorization },
                EventSupplierInit { contract: "gauge1".to_string(), supplier_type: EventSupplierType::Gauge },
            ],
        ),
    )
    .unwrap();
    s.execute_register_group(DAO.to_string(), group("art", vec![])).unwrap();
    s
}

fn create(s: &mut CalendarState<()>, title: &str, start: u64, end: u64, groups: &[&str]) -> Result<u64, ContractError> {
    s.execute_create_event(
        DAO.to_string(),
        t(1),
        title.to_string(),
        None,
        t(start),
        t(end),
        groups.iter().map(|g| g.to_string()).collect(),
        None,
        None,
        None,
        None,
        false,
    )
}

#[test]
fn reply_ids_and_limits() {
    assert_eq!(failed_event_hook_id(0), 1_000_000);
    assert_eq!(failed_event_hook_id(7), 1_000_007);
    assert_eq!(clamp_limit(None), 30);
    assert_eq!(clamp_limit(Some(5)), 5);
    assert_eq!(clamp_limit(Some(1000)), 100);
}

#[test]
fn timezones() {
    assert!(is_valid_timezone("America/New_York"));
    assert!(is_valid_timezone("Etc/GMT+5"));
    assert!(is_valid_timezone("UTC"));
    assert!(!is_valid_timezone(""));
    assert!(!is_valid_timezone("Europe/Zürich"));
    assert!(!is_valid_timezone("a b"));
    assert!(is_valid_timezone(&"a".repeat(64)));
    assert!(!is_valid_timezone(&"a".repeat(65)));
}

#[test]
fn statuses() {
    assert_eq!(EventStatus::Upcoming.as_u8(), 0);
    assert_eq!(EventStatus::Active.as_u8(), 1);
    assert_eq!(EventStatus::Completed.as_u8(), 2);
    assert_eq!(EventStatus::Cancelled.as_u8(), 3);
    assert_eq!(EventStatus::Cancelled.to_string(), "cancelled");
    assert_eq!(EventStatus::Upcoming.to_string(), "upcoming");
}

#[test]
fn groups_are_registered_once_by_the_dao() {
    let mut s = calendar();
    assert!(matches!(
        s.execute_register_group("eve".to_string(), group("x", vec![])),
        Err(ContractError::Unauthorized {})
    ));
    assert!(matches!(
        s.execute_register_group(DAO.to_string(), group("ops", vec![])),
        Err(ContractError::GroupAlreadyExists { id }) if id == "ops"
    ));
    assert_eq!(s.groups.len(), 2);
    let ops = &s.groups.iter().find(|(k, _)| k == "ops").unwrap().1;
    assert_eq!(ops.name, "ops");
    assert_eq!(ops.members, None);
    assert_eq!(ops.suppliers.len(), 2);
}

#[test]
fn instantiate_with_groups() {
    let s = CalendarState::<()>::instantiate(DAO.to_string(), Some(vec![group("a", vec![]), group("b", vec![])])).unwrap();
    assert_eq!(s.groups.len(), 2);
    let err = CalendarState::<()>::instantiate(
        DAO.to_string(),
        Some(vec![group("a", vec![]), group("b", vec![]), group("a", vec![])]),
    )
    .unwrap_err();
    assert!(matches!(err, ContractError::GroupAlreadyExists { id } if id == "a"));
}

#[test]
fn creating_events() {
    let mut s = calendar();
    assert!(matches!(create(&mut s, "x", 10, 10, &["ops"]), Err(ContractError::InvalidTimeRange {})));
    assert!(matches!(
        create(&mut s, "x", 10, 20, &["ops", "nope", "gone"]),
        Err(ContractError::NoSuchGroup { id }) if id == "nope"
    ));
    let err = s
        .execute_create_event(
            DAO.to_string(), t(1), "x".to_string(), None, t(10), t(20), vec![], None, None,
            Some("Bad Zone".to_string()), None, false,
        )
        .unwrap_err();
    assert!(matches!(err, ContractError::InvalidTimezone { tz } if tz == "Bad Zone"));
    let err = s
        .execute_create_event(
            "eve".to_string(), t(1), "x".to_string(), None, t(10), t(20), vec!["ops".to_string()],
            None, None, None, None, false,
        )
        .unwrap_err();
    assert!(matches!(err, ContractError::Unauthorized {}));
    assert_eq!(s.event_count, 0);

    // A vouched sender may create.
    let id = s
        .execute_create_event(
            "eve".to_string(),
            t(5),
            "standup".to_string(),
            Some("daily".to_string()),
            t(10),
            t(20),
            vec!["ops".to_string()],
            Some(vec![EventServiceInit {
                name: "room".to_string(),
                description: None,
                target_contract: None,
                msgs: vec![],
            }]),
            Some(()),
            Some("Europe/Paris".to_string()),
            Some(RecurrenceRule {
                frequency: RecurrenceFrequency::Daily,
                interval: 1,
                days_of_week: None,
                end_condition: RecurrenceEnd::AfterCount(3),
            }),
            true,
        )
        .unwrap();
    assert_eq!(id, 1);
    let e = s.query_event(1).unwrap();
    assert_eq!(e.title, "standup");
    assert_eq!(e.created_by, "eve");
    assert_eq!(e.created_at, t(5));
    assert_eq!(e.status, EventStatus::Upcoming);
    assert_eq!(e.event_services.len(), 1);
    assert_eq!(e.event_services[0].name, "room");
    assert_eq!(e.timezone, Some("Europe/Paris".to_string()));
    assert!(s.query_event_recurrence(1).is_some());
    let (instances, more) = s.query_compute_recurring_instances(1, None, None, Some(10)).unwrap();
    assert_eq!(instances.len(), 3);
    assert!(!more);
    assert_eq!(instances[2].start_time, t(10 + 2 * DAY));
    assert_eq!(instances[2].end_time, t(20 + 2 * DAY));
    assert_eq!(create(&mut s, "second", 30, 40, &[]).unwrap(), 2);
    let (instances, more) = s.query_compute_recurring_instances(2, None, None, None).unwrap();
    assert!(instances.is_empty() && !more);
    assert!(s.query_compute_recurring_instances(9, None, None, None).is_none());
    assert_eq!(s.query_event_count(), 2);
    assert_eq!(
        s.authorization_contracts(&vec!["ops".to_string(), "art".to_string(), "none".to_string()]),
        vec!["auth1".to_string()]
    );
}

#[test]
fn updating_events() {
    let mut s = calendar();
    create(&mut s, "x", 100, 200, &["ops"]).unwrap();
    let up = |s: &mut CalendarState<()>, start: Option<u64>, end: Option<u64>, groups: Option<Vec<String>>, tz: Option<&str>| {
        s.execute_update_event(
            DAO.to_string(),
            1,
            Some("renamed".to_string()),
            None,
            start.map(t),
            end.map(t),
            groups,
            None,
            None,
            tz.map(|z| z.to_string()),
            false,
        )
    };
    assert!(matches!(
        s.execute_update_event(DAO.to_string(), 9, None, None, None, None, None, None, None, None, false),
        Err(ContractError::NoSuchEvent { id: 9 })
    ));
    assert!(matches!(up(&mut s, Some(300), None, None, None), Err(ContractError::InvalidTimeRange {})));
    assert!(matches!(
        up(&mut s, None, None, Some(vec!["zzz".to_string()]), None),
        Err(ContractError::NoSuchGroup { id }) if id == "zzz"
    ));
    assert!(matches!(up(&mut s, None, None, None, Some("no way")), Err(ContractError::InvalidTimezone { .. })));
    assert_eq!(s.query_event(1).unwrap().title, "x");
    up(&mut s, Some(150), Some(250), Some(vec!["art".to_string()]), Some("UTC")).unwrap();
    let e = s.query_event(1).unwrap();
    assert_eq!(e.title, "renamed");
    assert_eq!(e.start_time, t(150));
    assert_eq!(e.end_time, t(250));
    assert_eq!(e.managing_groups, vec!["art".to_string()]);
    assert_eq!(e.timezone, Some("UTC".to_string()));
    assert_eq!(s.query_list_events(Some(EventFilter::ByGroups { groups: vec!["art".to_string()] }), None, None), vec![1]);
    assert!(s.query_list_events(Some(EventFilter::ByGroups { groups: vec!["ops".to_string()] }), None, None).is_empty());
}

#[test]
fn cancelling_and_triggering() {
    let mut s = calendar();
    create(&mut s, "a", 100, 200, &["ops"]).unwrap();
    create(&mut s, "b", 100, 200, &[]).unwrap();
    assert!(matches!(s.execute_trigger_event_start(t(99), 1), Err(ContractError::EventNotUpcoming { id: 1 })));
    assert!(matches!(s.execute_trigger_event_end(t(300), 1), Err(ContractError::EventNotActive { id: 1 })));
    assert_eq!(
        s.execute_trigger_event_start(t(100), 1).unwrap(),
        (EventStatus::Upcoming, EventStatus::Active)
    );
    assert!(matches!(s.execute_trigger_event_end(t(199), 1), Err(ContractError::EventNotActive { id: 1 })));
    assert_eq!(
        s.execute_trigger_event_end(t(200), 1).unwrap(),
        (EventStatus::Active, EventStatus::Completed)
    );
    assert!(matches!(s.execute_cancel_event(DAO.to_string(), 1, false), Err(ContractError::EventNotUpcoming { id: 1 })));

    assert!(matches!(s.execute_cancel_event("eve".to_string(), 2, false), Err(ContractError::Unauthorized {})));
    assert_eq!(s.execute_cancel_event("eve".to_string(), 2, true).unwrap(), EventStatus::Upcoming);
    assert_eq!(s.query_event(2).unwrap().status, EventStatus::Cancelled);
    assert!(matches!(s.execute_cancel_event(DAO.to_string(), 2, false), Err(ContractError::EventNotUpcoming { id: 2 })));
    assert!(matches!(s.execute_trigger_event_start(t(150), 2), Err(ContractError::EventNotUpcoming { id: 2 })));
    assert!(matches!(s.execute_cancel_event(DAO.to_string(), 3, false), Err(ContractError::NoSuchEvent { id: 3 })));
}

#[test]
fn gauges() {
    let mut s = calendar();
    create(&mut s, "a", 100, 200, &["ops", "art"]).unwrap();
    assert!(s.collect_gauge_msgs(1, true).is_none());
    s.execute_register_event_gauges(DAO.to_string(), 1, vec![], vec![], false).unwrap();
    assert!(s.collect_gauge_msgs(1, true).is_none());
    assert!(matches!(
        s.execute_register_event_gauges(DAO.to_string(), 5, vec![], vec![], false),
        Err(ContractError::NoSuchEvent { id: 5 })
    ));
    let summary = s.query_event_gauges(1).unwrap();
    assert_eq!(summary, vec![("ops".to_string(), vec!["gauge1".to_string()])]);
    assert!(s.query_event_gauges(9).is_none());
    assert_eq!(s.query_groups_managing_event(1).unwrap(), vec!["ops".to_string(), "art".to_string()]);
}

#[test]
fn removing_a_group_cleans_the_join_table() {
    let mut s = calendar();
    create(&mut s, "a", 100, 200, &["ops", "art"]).unwrap();
    create(&mut s, "b", 300, 400, &["ops"]).unwrap();
    assert!(matches!(s.execute_remove_group("eve".to_string(), "ops".to_string()), Err(ContractError::Unauthorized {})));
    assert!(matches!(
        s.execute_remove_group(DAO.to_string(), "zzz".to_string()),
        Err(ContractError::NoSuchGroup { id }) if id == "zzz"
    ));
    s.execute_remove_group(DAO.to_string(), "ops".to_string()).unwrap();
    assert!(s.query_list_events(Some(EventFilter::ByGroups { groups: vec!["ops".to_string()] }), None, None).is_empty());
    assert_eq!(s.query_list_events(Some(EventFilter::ByGroups { groups: vec!["art".to_string()] }), None, None), vec![1]);
    // Events keep naming the group.
    assert_eq!(s.query_event(2).unwrap().managing_groups, vec!["ops".to_string()]);
    assert_eq!(s.query_groups_managing_event(2).unwrap(), Vec::<String>::new());
}

#[test]
fn listing_events() {
    let mut s = calendar();
    create(&mut s, "a", 500, 600, &["ops"]).unwrap();
    create(&mut s, "b", 100, 200, &["art"]).unwrap();
    create(&mut s, "c", 300, 400, &["ops", "art"]).unwrap();
    create(&mut s, "d", 100, 150, &[]).unwrap();
    assert_eq!(s.query_list_events(None, None, None), vec![1, 2, 3, 4]);
    assert_eq!(s.query_list_events(None, Some(2), Some(1)), vec![3]);
    assert_eq!(s.query_reverse_events(None, None, Some(2)), vec![4, 3]);
    assert_eq!(s.query_reverse_events(None, Some(3), None), vec![2, 1]);

    // By start time, then id.
    let by_time = s.query_list_events(
        Some(EventFilter::ByTimeRange { start_after: None, end_before: None }),
        None,
        None,
    );
    assert_eq!(by_time, vec![2, 4, 3, 1]);
    let window = s.query_list_events(
        Some(EventFilter::ByTimeRange { start_after: Some(t(100)), end_before: Some(t(300)) }),
        Some(2),
        None,
    );
    assert_eq!(window, vec![4, 3]);
    assert_eq!(
        s.query_reverse_events(Some(EventFilter::ByTimeRange { start_after: None, end_before: None }), None, None),
        vec![1, 3, 4, 2]
    );

    s.execute_cancel_event(DAO.to_string(), 4, false).unwrap();
    assert_eq!(
        s.query_list_events(Some(EventFilter::ByStatus { status: EventStatus::Cancelled }), None, None),
        vec![4]
    );
    assert_eq!(
        s.query_reverse_events(Some(EventFilter::ByStatus { status: EventStatus::Upcoming }), Some(1), Some(2)),
        vec![3, 2]
    );

    // Groups: each event once, in id order.
    assert_eq!(
        s.query_list_events(
            Some(EventFilter::ByGroups { groups: vec!["art".to_string(), "ops".to_string()] }),
            None,
            None
        ),
        vec![1, 2, 3]
    );
    assert_eq!(
        s.query_list_events(Some(EventFilter::ByGroups { groups: vec!["ops".to_string()] }), Some(1), None),
        vec![3]
    );

    // Agenda: upcoming and active events by start time.
    assert_eq!(s.query_agenda(None, None), vec![2, 3, 1]);
    assert_eq!(s.query_agenda(Some(t(250)), None), vec![3, 1]);
    assert_eq!(s.query_agenda(None, Some(0)), vec![2]);
}

#[test]
fn renewing_prunes_year_old_events() {
    let mut s = calendar();
    let year = 365 * DAY;
    create(&mut s, "old", 10, 20, &["ops"]).unwrap();
    create(&mut s, "older", 5, 20, &[]).unwrap();
    create(&mut s, "new", year, year + 10, &["ops"]).unwrap();
    s.execute_register_event_gauges(DAO.to_string(), 1, vec![], vec![], false).unwrap();
    assert_eq!(s.execute_renew_calendar(t(year), None), 0);
    assert_eq!(s.execute_renew_calendar(t(year + 10), Some(1)), 1);
    assert!(s.query_event(2).is_none());
    assert!(s.query_event(1).is_some());
    assert_eq!(s.execute_renew_calendar(t(year + 10), None), 1);
    assert!(s.query_event(1).is_none());
    assert!(s.gauges.is_empty());
    assert_eq!(s.query_list_events(None, None, None), vec![3]);
    assert_eq!(s.query_list_events(Some(EventFilter::ByGroups { groups: vec!["ops".to_string()] }), None, None), vec![3]);
    assert_eq!(s.query_event_count(), 3);
}

#[test]
fn event_hooks() {
    let mut s = calendar();
    assert!(matches!(s.execute_add_event_hook("eve".to_string(), "h".to_string()), Err(ContractError::Unauthorized {})));
    s.execute_add_event_hook(DAO.to_string(), "h".to_string()).unwrap();
    assert!(matches!(
        s.execute_add_event_hook(DAO.to_string(), "h".to_string()),
        Err(ContractError::HookError(HookError::HookAlreadyRegistered {}))
    ));
    s.execute_remove_event_hook(DAO.to_string(), "h".to_string()).unwrap();
    assert!(matches!(
        s.execute_remove_event_hook(DAO.to_string(), "h".to_string()),
        Err(ContractError::HookError(HookError::HookNotRegistered {}))
    ));
}

#[test]
fn updating_group_suppliers() {
    let mut s = calendar();
    assert!(matches!(
        s.execute_update_group(DAO.to_string(), "zzz".to_string(), None),
        Err(ContractError::NoSuchGroup { id }) if id == "zzz"
    ));
    s.execute_update_group(
        DAO.to_string(),
        "art".to_string(),
        Some(vec![EventSupplierInit { contract: "auth2".to_string(), supplier_type: EventSupplierType::Authorization }]),
    )
    .unwrap();
    assert_eq!(s.authorization_contracts(&vec!["art".to_string()]), vec!["auth2".to_string()]);
}

#[test]
fn groups_are_listed_in_byte_order() {
    let mut s = calendar();
    s.execute_register_group(DAO.to_string(), group("Zed", vec![])).unwrap();
    s.execute_register_group(DAO.to_string(), group("été", vec![])).unwrap();
    s.execute_register_group(DAO.to_string(), group("arts", vec![])).unwrap();
    assert_eq!(s.query_list_groups(None, None), vec!["Zed", "art", "arts", "ops", "été"]);
    assert_eq!(s.query_list_groups(Some("art".to_string()), Some(2)), vec!["arts", "ops"]);
    assert_eq!(s.query_list_groups(Some("b".to_string()), None), vec!["ops", "été"]);
    assert_eq!(s.query_list_groups(None, Some(0)), Vec::<String>::new());
    assert_eq!(s.query_list_groups(Some("été".to_string()), None), Vec::<String>::new());
    assert_eq!(s.query_group(&"art".to_string()).unwrap().id, "art");
    assert!(s.query_group(&"nope".to_string()).is_none());
    let (dao, ids, count) = s.query_dump_state();
    assert_eq!(dao, DAO);
    assert_eq!(ids, vec!["Zed", "art", "arts", "ops", "été"]);
    assert_eq!(count, 0);
}

#[test]
fn a_failed_hook_reply_unregisters_the_hook() {
    let mut s = calendar();
    s.execute_add_event_hook(DAO.to_string(), "h0".to_string()).unwrap();
    s.execute_add_event_hook(DAO.to_string(), "h1".to_string()).unwrap();
    s.execute_add_event_hook(DAO.to_string(), "h2".to_string()).unwrap();
    assert!(matches!(s.reply(7), Err(ContractError::InvalidReplyID { id: 7 })));
    assert_eq!(s.hooks.len(), 3);
    let (addr, idx) = s.reply(failed_event_hook_id(1)).unwrap();
    assert_eq!((addr.as_str(), idx), ("h1", 1));
    assert_eq!(s.hooks, vec!["h0".to_string(), "h2".to_string()]);
}

#[test]
fn the_first_supplier_that_vouches_settles_it() {
    assert_eq!(vouch_step(2, 0, false), VouchStep::Ask { index: 0 });
    assert_eq!(vouch_step(2, 1, false), VouchStep::Ask { index: 1 });
    assert_eq!(vouch_step(2, 1, true), VouchStep::Vouched);
    assert_eq!(vouch_step(2, 2, false), VouchStep::NotVouched);
    assert_eq!(vouch_step(0, 0, false), VouchStep::NotVouched);
}

fn create_msg(start: u64, end: u64, groups: &[&str]) -> ExecuteMsg<()> {
    ExecuteMsg::CreateEvent {
        title: "meetup".to_string(),
        description: None,
        start_time: t(start),
        end_time: t(end),
        managing_groups: groups.iter().map(|g| g.to_string()).collect(),
        services: None,
        extension: None,
        timezone: None,
        recurrence: None,
    }
}

#[test]
fn messages_are_dispatched_to_their_handlers() {
    let mut s = calendar();
    assert!(matches!(
        s.execute(DAO.to_string(), t(1), create_msg(100, 200, &["ops"]), false),
        Ok(ExecuteOutcome::Created { event_id: 1 })
    ));
    assert!(matches!(
        s.execute(DAO.to_string(), t(1), create_msg(300, 200, &[]), false),
        Err(ContractError::InvalidTimeRange {})
    ));
    assert!(matches!(
        s.execute(DAO.to_string(), t(1), create_msg(100, 200, &["nope"]), false),
        Err(ContractError::NoSuchGroup { .. })
    ));
    assert!(matches!(
        s.execute(DAO.to_string(), t(1), create_msg(400, 500, &[]), false),
        Ok(ExecuteOutcome::Created { event_id: 2 })
    ));
    assert_eq!(s.query_event(2).unwrap().status, EventStatus::Upcoming);

    match s.execute(DAO.to_string(), t(100), ExecuteMsg::TriggerEventStart { event_id: 1 }, false) {
        Ok(ExecuteOutcome::Triggered { old_status, new_status }) => {
            assert_eq!(old_status, EventStatus::Upcoming);
            assert_eq!(new_status, EventStatus::Active);
        }
        _ => panic!("the event should have started"),
    }
    match s.execute(DAO.to_string(), t(150), ExecuteMsg::CancelEvent { event_id: 1 }, false) {
        Ok(ExecuteOutcome::Cancelled { old_status }) => assert_eq!(old_status, EventStatus::Active),
        _ => panic!("the event should have been cancelled"),
    }
    assert!(matches!(
        s.execute("eve".to_string(), t(1), ExecuteMsg::AddEventHook { address: "h".to_string() }, false),
        Err(ContractError::Unauthorized {})
    ));
    assert!(matches!(
        s.execute(DAO.to_string(), t(1), ExecuteMsg::AddEventHook { address: "h".to_string() }, false),
        Ok(ExecuteOutcome::Done)
    ));
    assert!(matches!(
        s.execute(DAO.to_string(), t(1), ExecuteMsg::RemoveGroup { group_id: "art".to_string() }, false),
        Ok(ExecuteOutcome::Done)
    ));
    assert!(matches!(
        s.execute(DAO.to_string(), t(1), ExecuteMsg::RenewCalendar { limit: None }, false),
        Ok(ExecuteOutcome::Renewed { pruned: 0 })
    ));
}

#[test]
fn a_cancelled_or_completed_event_stays_so_whatever_comes() {
    let mut s = calendar();
    create(&mut s, "a", 100, 200, &[]).unwrap();
    create(&mut s, "b", 100, 200, &[]).unwrap();
    s.execute(DAO.to_string(), t(1), ExecuteMsg::CancelEvent { event_id: 1 }, false).unwrap();
    s.execute(DAO.to_string(), t(100), ExecuteMsg::TriggerEventStart { event_id: 2 }, false).unwrap();
    s.execute(DAO.to_string(), t(200), ExecuteMsg::TriggerEventEnd { event_id: 2 }, false).unwrap();
    let tries = vec![
        ExecuteMsg::TriggerEventStart { event_id: 1 },
        ExecuteMsg::TriggerEventEnd { event_id: 1 },
        ExecuteMsg::CancelEvent { event_id: 1 },
        ExecuteMsg::TriggerEventStart { event_id: 2 },
        ExecuteMsg::TriggerEventEnd { event_id: 2 },
        ExecuteMsg::CancelEvent { event_id: 2 },
    ];
    for msg in tries {
        assert!(s.execute(DAO.to_string(), t(250), msg, true).is_err());
    }
    assert_eq!(s.query_event(1).unwrap().status, EventStatus::Cancelled);
    assert_eq!(s.query_event(2).unwrap().status, EventStatus::Completed);
}
