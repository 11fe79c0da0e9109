use deploy_sync::scheduler::due_projects;
use deploy_sync::scheduler::get_all_schedules;
use deploy_sync::scheduler::get_schedule;
use deploy_sync::scheduler::is_due;
use deploy_sync::scheduler::load_schedules;
use deploy_sync::scheduler::export_schedules;
use deploy_sync::scheduler::mark_schedule_run;
use deploy_sync::scheduler::remove_schedule;
use deploy_sync::scheduler::schedules_to_run;
use deploy_sync::scheduler::set_schedule;
use deploy_sync::scheduler::set_schedule_enabled;
use deploy_sync::scheduler::start_scheduler;
use deploy_sync::scheduler::stop_scheduler;
use deploy_sync::scheduler::update_schedule_result;
use deploy_sync::scheduler::ScheduleError;
use deploy_sync::scheduler::ScheduleResult;
use deploy_sync::scheduler::ScheduleType;
use deploy_sync::scheduler::SchedulerState;
use deploy_sync::scheduler::SyncSchedule;
use deploy_sync::scrape_cache::current_timestamp;
use deploy_sync::scrape_cache::seconds_since_epoch;
use deploy_sync::scrape_cache::ScrapeCache;
use deploy_sync::strmap::StrMap;
use deploy_sync::text::str_eq;
use deploy_sync::text::str_lt;

fn schedule(project: &str, cron: Option<&str>) -> SyncSchedule {
    SyncSchedule {
        project_id: project.to_string(),
        enabled: true,
        schedule_type: ScheduleType::Custom,
        cron_expression: cron.map(|c| c.to_string()),
        next_run: None,
        last_run: None,
        last_result: None,
    }
}

#[test]
fn entry_expires_after_its_time_to_live() {
    let mut cache = ScrapeCache::new_at("p", "https://example.com", 1000);
    assert_eq!(cache.ttl_seconds, 7 * 24 * 60 * 60);
    assert_eq!(cache.created_at, 1000);
    cache.set_at("https://example.com/a", "<html>a</html>", Some("A".to_string()), 3, 4, 1000);
    assert!(cache.is_cached_at("https://example.com/a", 1000));
    assert!(cache.is_cached_at("https://example.com/a", 1000 + 604799));
    assert!(!cache.is_cached_at("https://example.com/a", 1000 + 604800));
    assert!(cache.is_cached_at("https://example.com/a", 5));
    assert!(!cache.is_cached_at("https://example.com/b", 1000));
    let entry = cache.get("https://example.com/a").unwrap();
    assert_eq!(entry.url, "https://example.com/a");
    assert_eq!(entry.url_hash, ScrapeCache::hash_url("https://example.com/a"));
    assert_eq!(entry.content_hash, ScrapeCache::hash_content("<html>a</html>"));
    assert_eq!(entry.scraped_at, 1000);
    assert_eq!(entry.page_title, Some("A".to_string()));
    assert_eq!(entry.images_count, 3);
    assert_eq!(entry.texts_count, 4);
    assert!(cache.get("https://example.com/b").is_none());
}

#[test]
fn hash_of_text_is_sha256_of_its_bytes() {
    assert_eq!(
        ScrapeCache::hash_url("abc"),
        "ba7816bf8f01cfea414140de5dae2223b00361a396177a9cb410ff61f20015ad"
    );
    assert_eq!(ScrapeCache::cache_file_path("/p"), "/p/_Inbox/.scrape_cache.json");
}

#[test]
fn rescrape_is_needed_for_unknown_or_changed_pages() {
    let mut cache = ScrapeCache::new("p", "https://example.com");
    assert!(cache.needs_rescrape("u", "content"));
    cache.set("u", "content", None, 0, 0);
    assert!(!cache.needs_rescrape("u", "content"));
    assert!(cache.needs_rescrape("u", "other"));
}

#[test]
fn cleanup_and_stats() {
    let mut cache = ScrapeCache::new_at("p", "b", 0);
    assert!(cache.set_ttl_days(1));
    assert_eq!(cache.ttl_seconds, 86400);
    cache.set_at("old", "c", None, 1, 10, 100);
    cache.set_at("fresh", "c", None, 2, 20, 90000);
    cache.set_at("older", "c", None, 4, 40, 50);
    let stats = cache.stats_at(90100).unwrap();
    assert_eq!(stats.total_entries, 3);
    assert_eq!(stats.valid_entries, 1);
    assert_eq!(stats.expired_entries, 2);
    assert_eq!(stats.total_images, 7);
    assert_eq!(stats.total_texts, 70);
    assert_eq!(stats.last_updated, 50);
    cache.cleanup_at(90100);
    assert_eq!(cache.entries.len(), 1);
    assert!(cache.get("fresh").is_some());
    assert!(cache.get("old").is_none());
    assert_eq!(cache.updated_at, 90100);
    cache.clear_at(90200);
    assert_eq!(cache.entries.len(), 0);
    assert_eq!(cache.updated_at, 90200);
    assert_eq!(cache.stats_at(1).unwrap().total_entries, 0);
}

#[test]
fn cleanup_and_clear_by_the_clock() {
    let mut cache = ScrapeCache::new("p", "b");
    cache.set("u", "c", None, 1, 1);
    cache.set_at("ancient", "c", None, 1, 1, 1);
    cache.cleanup();
    assert!(cache.get("u").is_some());
    assert!(cache.get("ancient").is_none());
    assert_eq!(cache.stats().unwrap().valid_entries, 1);
    cache.clear();
    assert!(cache.get("u").is_none());
    assert!(current_timestamp() > 1_600_000_000);
}

#[test]
fn too_many_days_are_refused() {
    let mut cache = ScrapeCache::new_at("p", "b", 0);
    assert!(!cache.set_ttl_days(u64::MAX / 86400 + 1));
    assert_eq!(cache.ttl_seconds, 604800);
    assert!(cache.set_ttl_days(u64::MAX / 86400));
    assert!(cache.set_ttl_days(0));
    cache.set_at("u", "c", None, 0, 0, 5);
    assert!(!cache.is_cached_at("u", 5));
    let mut big = ScrapeCache::new_at("p", "b", 0);
    big.set_at("a", "c", None, usize::MAX, 1, 0);
    big.set_at("b", "c", None, 1, 1, 0);
    assert!(big.stats_at(0).is_none());
}

#[test]
fn cron_of_each_schedule_type() {
    assert_eq!(ScheduleType::Hourly.to_cron(9, 30, None), "30 * * * *");
    assert_eq!(ScheduleType::Daily.to_cron(9, 5, None), "5 9 * * *");
    assert_eq!(ScheduleType::Weekly.to_cron(23, 0, None), "0 23 * * 1");
    assert_eq!(ScheduleType::Weekly.to_cron(7, 15, Some(5)), "15 7 * * 5");
    assert_eq!(ScheduleType::Monthly.to_cron(12, 45, Some(3)), "45 12 1 * *");
    assert_eq!(ScheduleType::Custom.to_cron(1, 2, Some(3)), "");
    assert_eq!(ScheduleType::Daily.to_cron(4294967295, 100, None), "100 4294967295 * * *");
}

#[test]
fn schedule_with_bad_cron_is_refused() {
    let mut state = SchedulerState::new();
    let result = set_schedule(&mut state, schedule("alpha", Some("not a cron")));
    assert!(matches!(result, Err(ScheduleError::InvalidCron)));
    assert!(get_schedule(&state, "alpha").is_none());
    let stored = set_schedule(&mut state, schedule("alpha", Some("0 30 9 * * *"))).unwrap();
    assert_eq!(stored.project_id, "alpha");
    assert!(stored.next_run.is_some());
    assert_eq!(stored.next_run.as_ref().unwrap().len(), 20);
    assert_eq!(get_schedule(&state, "alpha").unwrap().next_run, stored.next_run);
    let plain = set_schedule(&mut state, schedule("beta", None)).unwrap();
    assert_eq!(plain.next_run, None);
    assert_eq!(get_all_schedules(&state).len(), 2);
}

#[test]
fn schedules_are_enabled_removed_and_exported() {
    let mut state = SchedulerState::new();
    assert!(matches!(
        set_schedule_enabled(&mut state, "alpha", false),
        Err(ScheduleError::NotFound)
    ));
    load_schedules(&mut state, vec![schedule("alpha", None), schedule("beta", None), schedule("alpha", Some("x"))]);
    let all = export_schedules(&state);
    assert_eq!(all.len(), 2);
    assert_eq!(all[0].project_id, "alpha");
    assert_eq!(all[0].cron_expression, Some("x".to_string()));
    assert!(set_schedule_enabled(&mut state, "alpha", false).is_ok());
    assert!(!get_schedule(&state, "alpha").unwrap().enabled);
    assert!(get_schedule(&state, "beta").unwrap().enabled);
    update_schedule_result(
        &mut state,
        "beta",
        ScheduleResult {
            success: true,
            timestamp: "t".to_string(),
            files_synced: 3,
            error: None,
        },
    );
    let beta = get_schedule(&state, "beta").unwrap();
    assert_eq!(beta.last_result.as_ref().unwrap().files_synced, 3);
    assert!(beta.last_result.as_ref().unwrap().success);
    mark_schedule_run(&mut state, "beta", "2024-01-01T00:00:00Z".to_string());
    assert_eq!(get_schedule(&state, "beta").unwrap().last_run, Some("2024-01-01T00:00:00Z".to_string()));
    assert!(remove_schedule(&mut state, "alpha").is_ok());
    assert!(get_schedule(&state, "alpha").is_none());
    assert!(remove_schedule(&mut state, "alpha").is_ok());
    assert_eq!(get_all_schedules(&state).len(), 1);
}

#[test]
fn scheduler_starts_once() {
    let mut state = SchedulerState::new();
    assert!(start_scheduler(&mut state));
    assert!(!start_scheduler(&mut state));
    assert!(state.running);
    stop_scheduler(&mut state);
    assert!(!state.running);
}

#[test]
fn due_within_a_minute() {
    assert!(is_due((1000, 0), (1000, 0)));
    assert!(is_due((1059, 0), (1000, 0)));
    assert!(is_due((1060, 0), (1000, 1)));
    assert!(!is_due((1060, 0), (1000, 0)));
    assert!(is_due((941, 0), (1000, 0)));
    assert!(!is_due((940, 0), (1000, 0)));
    assert!(is_due((940, 1), (1000, 0)));
    assert!(!is_due((i64::MIN, 0), (i64::MAX, 0)));
    assert!(!is_due((i64::MAX, 0), (i64::MIN, 0)));
    let mut state = SchedulerState::new();
    set_schedule(&mut state, schedule("every-second", Some("* * * * * *"))).unwrap();
    set_schedule(&mut state, schedule("disabled", Some("* * * * * *"))).unwrap();
    set_schedule(&mut state, schedule("far", Some("0 0 0 1 1 * 2099"))).unwrap();
    set_schedule(&mut state, schedule("none", None)).unwrap();
    set_schedule_enabled(&mut state, "disabled", false).unwrap();
    assert_eq!(schedules_to_run(&state), vec!["every-second".to_string()]);
}

#[test]
fn text_order_and_equality() {
    assert!(str_eq("abc", "abc"));
    assert!(!str_eq("abc", "abd"));
    assert!(!str_eq("abc", "ab"));
    assert!(str_eq("d\u{e9}j\u{e0}", "d\u{e9}j\u{e0}"));
    assert!(str_lt("2024-01-01T00:00:00Z", "2024-01-02T00:00:00Z"));
    assert!(!str_lt("2024-01-02T00:00:00Z", "2024-01-01T00:00:00Z"));
    assert!(!str_lt("same", "same"));
    assert!(str_lt("ab", "abc"));
    assert!(!str_lt("abc", "ab"));
    assert!(str_lt("", "a"));
}

#[test]
fn map_keeps_insertion_order() {
    let mut m: StrMap<u32> = StrMap::new();
    m.insert("b".to_string(), 2);
    m.insert("a".to_string(), 1);
    m.insert("c".to_string(), 3);
    m.insert("a".to_string(), 10);
    assert_eq!(m.len(), 3);
    assert_eq!(m.key_at(1), "a");
    assert_eq!(*m.value_at(1), 10);
    assert_eq!(m.get("c"), Some(&3));
    assert_eq!(m.get("z"), None);
    assert_eq!(m.find("c"), Some(2));
    assert_eq!(m.put_at(0, 20), 2);
    *m.value_at_mut(2) += 1;
    assert_eq!(m.get("c"), Some(&4));
    assert_eq!(m.remove("b"), Some(20));
    assert_eq!(m.remove("b"), None);
    assert_eq!(m.key_at(0), "a");
    assert_eq!(m.remove_at(0), 10);
    assert!(m.contains_key("c"));
    m.clear();
    assert_eq!(m.len(), 0);
}

#[test]
fn due_projects_are_selected_in_order() {
    let mut state = SchedulerState::new();
    load_schedules(
        &mut state,
        vec![
            schedule("soon", None),
            schedule("late", None),
            schedule("off", None),
            schedule("unknown", None),
            schedule("past", None),
            schedule("beyond", None),
        ],
    );
    set_schedule_enabled(&mut state, "off", false).unwrap();
    let now: (i64, u32) = (5000, 500);
    let occurrences = vec![
        Some((5030, 0)),
        Some((5060, 500)),
        Some((5000, 500)),
        None,
        Some((4941, 0)),
    ];
    assert_eq!(
        due_projects(&state, &occurrences, now),
        vec!["soon".to_string(), "past".to_string()]
    );
    assert!(due_projects(&state, &vec![], now).is_empty());
    assert!(due_projects(&SchedulerState::new(), &occurrences, now).is_empty());
}

#[test]
fn seconds_before_the_epoch_are_zero() {
    assert_eq!(seconds_since_epoch(Some(1700000000)), 1700000000);
    assert_eq!(seconds_since_epoch(Some(0)), 0);
    assert_eq!(seconds_since_epoch(None), 0);
    assert_eq!(seconds_since_epoch(Some(u64::MAX)), u64::MAX);
}
