use std::collections::VecDeque;
use std::time::Duration;

use vyos_crowdsec_bouncer::blacklist::IpRangeMixed;
use vyos_crowdsec_bouncer::config::Config;
use vyos_crowdsec_bouncer::control_loop::{
    build_capped_update, build_exact_full_sync_update, plan_full_sync, plan_incremental, reconcile,
    reconcile_decisions, reconcile_once, reconcile_with_retries, select_reconcile_mode, start_round,
    store_existing_blacklist, BouncerState, LoopAction, LoopEvent, Progress, ReconcileMode,
    Reconciliation, Reply, Request, RoundStep, Schedule, UpdateReport, FIREWALL_GROUP_MAX_ITEMS,
    UPDATE_TIMEOUT_SECS,
};
use vyos_crowdsec_bouncer::crowdsec_lapi::{Decision, DecisionsOptions, DecisionsResponse, Scope};
use vyos_crowdsec_bouncer::net::IpNet;
use vyos_crowdsec_bouncer::vyos_api::http::{
    check_command, GroupReply, CONFIGURE_PATH, CONFIG_FILE_PATH,
};

const SUCCESS: &str = r#"{"success": true, "data": [], "error": null}"#;

fn mock_decision(value: &str) -> Decision {
    let scope = if value.contains('/') { Scope::Range } else { Scope::Ip };
    Decision { value: String::from(value), scope }
}

fn mock_decisions(cidrs_new: &[&str], cidrs_delete: &[&str]) -> DecisionsResponse {
    DecisionsResponse {
        new: Some(cidrs_new.iter().map(|value| mock_decision(value)).collect()),
        deleted: Some(cidrs_delete.iter().map(|value| mock_decision(value)).collect()),
    }
}

fn ipnets(values: &[&str]) -> Vec<IpNet> {
    values.iter().map(|value| IpNet::parse(value).unwrap()).collect()
}

fn range(values: &[&str]) -> IpRangeMixed {
    IpRangeMixed::from(ipnets(values))
}

fn mock_config() -> Config {
    Config {
        firewall_group: String::from("group"),
        trusted_ips: IpRangeMixed::default(),
        update_period_secs: 1,
        full_sync_interval: Some(Duration::from_secs(900).as_nanos()),
        vyos_save_config: true,
    }
}

/// The outside world: what each request is answered, and what was asked.
#[derive(Default)]
struct World {
    v4: Vec<IpNet>,
    v6: Vec<IpNet>,
    exists: Option<bool>,
    decisions: VecDeque<Result<DecisionsResponse, String>>,
    configure: VecDeque<&'static str>,
    save: VecDeque<&'static str>,
    queries: Vec<Vec<(String, String)>>,
    retrieved: Vec<String>,
    configured: Vec<Vec<(String, String)>>,
    saves: usize,
}

impl World {
    fn answer(&mut self, request: Request<'_>) -> Result<Reply, String> {
        match request {
            Request::Retrieve(command) => {
                let v6 = command.path.contains(&String::from("ipv6-network-group"));
                assert!(command.path.contains(&String::from("group")));
                self.retrieved.push(String::from(command.op.name()));
                let nets = if v6 { self.v6.clone() } else { self.v4.clone() };
                match command.op.name() {
                    "exists" => Ok(Reply::Group(GroupReply::Exists(
                        self.exists.unwrap_or(!nets.is_empty()),
                    ))),
                    _ => Ok(Reply::Group(GroupReply::Values(nets))),
                }
            }
            Request::Stream(options) => {
                self.queries.push(options.query());
                self.decisions.pop_front().unwrap().map(Reply::Decisions)
            }
            Request::Configure(commands, timeout) => {
                assert_eq!(timeout, Some(300));
                let sent = commands
                    .iter()
                    .map(|c| (String::from(c.op.name()), c.path.last().unwrap().clone()))
                    .collect();
                self.configured.push(sent);
                let body = self.configure.pop_front().unwrap_or(SUCCESS);
                check_command(CONFIGURE_PATH, body.as_bytes())
                    .map(|()| Reply::Done)
                    .map_err(|e| e.message())
            }
            Request::Save(timeout) => {
                assert_eq!(timeout, Some(300));
                self.saves += 1;
                let body = self.save.pop_front().unwrap_or(SUCCESS);
                check_command(CONFIG_FILE_PATH, body.as_bytes())
                    .map(|()| Reply::Done)
                    .map_err(|e| e.message())
            }
        }
    }

    fn run(
        &mut self,
        config: &Config,
        state: &mut BouncerState,
        start: Reconciliation,
    ) -> (Result<(), String>, Option<UpdateReport>) {
        let mut current = start;
        let mut report = None;
        loop {
            let reply = self.answer(current.request());
            let (progress, news) = current.step(config, state, reply);
            report = report.or(news);
            match progress {
                Progress::Continue(next) => current = next,
                Progress::Finished(outcome) => return (outcome, report),
            }
        }
    }

    fn reconcile_decisions(
        &mut self,
        config: &Config,
        state: &mut BouncerState,
        startup: bool,
    ) -> Result<(), String> {
        let options = DecisionsOptions { startup, ..Default::default() };
        let run = reconcile_decisions(config, options);
        self.run(config, state, run).0
    }

    fn reconcile_with_retries(
        &mut self,
        config: &Config,
        state: &mut BouncerState,
        mode: ReconcileMode,
    ) -> Result<ReconcileMode, String> {
        let mut round = start_round(mode);
        loop {
            let start = reconcile_once(config, round.mode);
            let (result, _) = self.run(config, state, start);
            match reconcile_with_retries(round, result, 0) {
                RoundStep::Done(outcome) => return outcome,
                RoundStep::Sleep(_, next) => round = next,
            }
        }
    }
}

fn startup_query(startup: bool) -> Vec<(String, String)> {
    vec![(String::from("startup"), startup.to_string())]
}

fn default_query(startup: bool) -> Vec<(String, String)> {
    [
        ("startup", if startup { "true" } else { "false" }),
        ("type", "ban"),
        ("origins", "crowdsec,lists,cscli"),
        ("scopes", "ip,range"),
        ("dedup", "false"),
    ]
    .iter()
    .map(|(k, v)| (String::from(*k), String::from(*v)))
    .collect()
}

fn command(op: &str, net: &str) -> (String, String) {
    (String::from(op), String::from(net))
}

#[test]
fn iteration_sucessful() {
    let config = mock_config();
    let mut state = BouncerState::default();
    let mut world = World { exists: Some(true), ..Default::default() };
    world
        .decisions
        .push_back(Ok(mock_decisions(&["127.0.0.1/32", "127.0.0.2", "junk"], &[])));

    let result = world.reconcile_decisions(&config, &mut state, true);
    assert!(result.is_ok());
    assert_eq!(world.queries, vec![startup_query(true)]);
    assert_eq!(world.retrieved, vec!["exists", "returnValues", "exists", "returnValues"]);
    assert_eq!(
        world.configured,
        vec![vec![command("set", "127.0.0.1/32"), command("set", "127.0.0.2/32")]]
    );
    assert_eq!(world.saves, 1);
    assert_eq!(state.blacklist.into_nets(), ipnets(&["127.0.0.1/32", "127.0.0.2/32"]));

    let mut world = World::default();
    world.decisions.push_back(Ok(mock_decisions(&["127.0.0.3"], &["127.0.0.1"])));
    let result = world.reconcile_decisions(&config, &mut state, false);
    assert!(result.is_ok());
    assert_eq!(world.queries, vec![startup_query(false)]);
    assert_eq!(
        world.configured,
        vec![vec![command("delete", "127.0.0.1/32"), command("set", "127.0.0.3/32")]]
    );
    assert_eq!(world.saves, 1);
    assert_eq!(state.blacklist.into_nets(), ipnets(&["127.0.0.2/31"]));
}

#[test]
fn no_update_if_present_in_cache() {
    let config = mock_config();
    let mut state = BouncerState::default();
    let mut world = World {
        v4: ipnets(&["127.0.0.1/32"]),
        v6: ipnets(&["127.0.0.1/32"]),
        ..Default::default()
    };
    world.decisions.push_back(Ok(mock_decisions(&["127.0.0.1/32"], &[])));

    let result = world.reconcile_decisions(&config, &mut state, true);
    assert!(result.is_ok());
    assert_eq!(world.queries, vec![startup_query(true)]);
    assert_eq!(world.retrieved, vec!["exists", "returnValues", "exists", "returnValues"]);
    assert!(world.configured.is_empty());
    assert_eq!(world.saves, 1);
}

#[test]
fn no_update_for_whitelisted_nets() {
    let mut config = mock_config();
    config.trusted_ips = range(&["127.0.0.1/32"]);
    let mut state = BouncerState::default();
    let mut world = World::default();
    world.decisions.push_back(Ok(mock_decisions(&["127.0.0.1/32"], &[])));

    let result = world.reconcile_decisions(&config, &mut state, false);
    assert!(result.is_ok());
    assert_eq!(world.queries, vec![startup_query(false)]);
    assert!(world.configured.is_empty());
}

#[test]
fn startup_without_existing_firewall_group_is_ok() {
    let config = mock_config();
    let mut state = BouncerState::default();
    let mut world = World { exists: Some(false), ..Default::default() };
    world.decisions.push_back(Ok(mock_decisions(&[], &[])));

    let result = world.reconcile_decisions(&config, &mut state, true);
    assert!(result.is_ok());
    assert_eq!(world.queries, vec![startup_query(true)]);
    assert_eq!(world.retrieved, vec!["exists", "exists"]);
    assert!(world.configured.is_empty());
    assert_eq!(world.saves, 1);
    assert!(state.blacklist.is_empty());
}

fn full_group() -> Vec<IpNet> {
    (0..FIREWALL_GROUP_MAX_ITEMS)
        .map(|idx| IpNet::parse(&format!("10.{}.{}.1/32", idx / 256, idx % 256)).unwrap())
        .collect()
}

#[test]
fn caps_new_entries_at_firewall_group_limit() {
    let config = mock_config();
    let mut state = BouncerState::default();
    store_existing_blacklist(&mut state, full_group());
    let mut world = World::default();
    world.decisions.push_back(Ok(mock_decisions(&["203.0.113.1", "203.0.113.2"], &[])));

    let options = DecisionsOptions { startup: false, ..Default::default() };
    let run = reconcile_decisions(&config, options);
    let (result, report) = world.run(&config, &mut state, run);
    assert!(result.is_ok());
    assert_eq!(world.queries, vec![startup_query(false)]);
    assert!(world.configured.is_empty());
    assert_eq!(
        report,
        Some(UpdateReport { added: 0, deleted: 0, skipped: 2, at_capacity: true })
    );

    assert_eq!(state.blacklist.net_count(), FIREWALL_GROUP_MAX_ITEMS);
    assert!(!state
        .blacklist
        .into_nets()
        .iter()
        .any(|net| net.to_string() == "203.0.113.1/32" || net.to_string() == "203.0.113.2/32"));
}

#[test]
fn full_sync_prunes_stale_vyos_entries() {
    let config = mock_config();
    let mut state = BouncerState::default();
    let mut world =
        World { v4: ipnets(&["127.0.0.1/32", "127.0.0.2/32"]), ..Default::default() };
    world.decisions.push_back(Ok(mock_decisions(&["127.0.0.2"], &[])));

    let result = world.reconcile_decisions(&config, &mut state, true);
    assert!(result.is_ok());
    assert_eq!(world.retrieved, vec!["exists", "returnValues", "exists"]);
    assert_eq!(world.queries, vec![startup_query(true)]);
    assert_eq!(world.configured, vec![vec![command("delete", "127.0.0.1/32")]]);
    assert_eq!(world.saves, 1);
    assert_eq!(state.blacklist.into_nets(), ipnets(&["127.0.0.2/32"]));
}

#[test]
fn full_sync_deletes_exact_stale_vyos_entries_without_simplifying_them() {
    let config = mock_config();
    let mut state = BouncerState::default();
    let mut world = World {
        v4: ipnets(&["87.121.84.80/31", "87.121.84.82/31", "107.172.35.195/32"]),
        ..Default::default()
    };
    world.decisions.push_back(Ok(mock_decisions(&["107.172.35.195"], &[])));

    let result = world.reconcile_decisions(&config, &mut state, true);
    assert!(result.is_ok());
    assert_eq!(world.retrieved, vec!["exists", "returnValues", "exists"]);
    assert_eq!(world.queries, vec![startup_query(true)]);
    assert_eq!(
        world.configured,
        vec![vec![command("delete", "87.121.84.80/31"), command("delete", "87.121.84.82/31")]]
    );
    assert_eq!(world.saves, 1);
    assert_eq!(state.blacklist.into_nets(), ipnets(&["107.172.35.195/32"]));
}

#[test]
fn configure_success_false_returns_error_and_keeps_cache() {
    let config = mock_config();
    let mut state = BouncerState::default();
    let mut world = World::default();
    world.decisions.push_back(Ok(mock_decisions(&["127.0.0.1"], &[])));
    world
        .configure
        .push_back(r#"{"success": false, "data": [], "error": "commit failed"}"#);

    let result = world.reconcile_decisions(&config, &mut state, false);
    assert_eq!(
        result,
        Err(String::from("VyOS API request to /configure did not succeed: commit failed"))
    );
    assert_eq!(world.queries, vec![startup_query(false)]);
    assert_eq!(world.configured.len(), 1);
    assert_eq!(world.saves, 0);
    assert!(state.blacklist.is_empty());
    assert!(state.pending_save);
}

#[test]
fn save_success_false_returns_error_and_keeps_cache() {
    let config = mock_config();
    let mut state = BouncerState::default();
    let mut world = World::default();
    world.decisions.push_back(Ok(mock_decisions(&["127.0.0.1"], &[])));
    world.save.push_back(r#"{"success": false, "data": [], "error": "save failed"}"#);

    let result = world.reconcile_decisions(&config, &mut state, false);
    assert!(result.is_err());
    assert_eq!(world.queries, vec![startup_query(false)]);
    assert_eq!(world.configured.len(), 1);
    assert_eq!(world.saves, 1);
    assert!(state.blacklist.is_empty());
    assert!(state.pending_save);
}

#[test]
fn failed_incremental_retry_uses_full_sync() {
    let config = mock_config();
    let mut state = BouncerState::default();
    let mut world = World::default();
    world.decisions.push_back(Ok(mock_decisions(&["127.0.0.1"], &[])));
    world.decisions.push_back(Ok(mock_decisions(&["127.0.0.1"], &[])));
    world
        .configure
        .push_back(r#"{"success": false, "data": [], "error": "commit failed"}"#);
    world.configure.push_back(SUCCESS);

    let result = world.reconcile_with_retries(&config, &mut state, ReconcileMode::Incremental);
    assert_eq!(result.unwrap(), ReconcileMode::FullSync);
    assert_eq!(world.queries, vec![default_query(false), default_query(true)]);
    assert_eq!(world.configured.len(), 2);
    assert_eq!(world.retrieved, vec!["exists", "exists"]);
    assert_eq!(world.saves, 1);
    assert_eq!(state.blacklist.into_nets(), ipnets(&["127.0.0.1/32"]));
}

#[test]
fn save_failure_retry_saves_full_sync_without_config_changes() {
    let config = mock_config();
    let mut state = BouncerState::default();
    let mut world = World { v4: ipnets(&["127.0.0.1/32"]), ..Default::default() };
    world.decisions.push_back(Ok(mock_decisions(&["127.0.0.1"], &[])));
    world.decisions.push_back(Ok(mock_decisions(&["127.0.0.1"], &[])));
    world.save.push_back(r#"{"success": false, "data": [], "error": "save failed"}"#);
    world.save.push_back(SUCCESS);

    let result = world.reconcile_with_retries(&config, &mut state, ReconcileMode::Incremental);
    assert_eq!(result.unwrap(), ReconcileMode::FullSync);
    assert_eq!(world.queries, vec![default_query(false), default_query(true)]);
    assert_eq!(world.configured.len(), 1);
    assert_eq!(world.retrieved, vec!["exists", "returnValues", "exists"]);
    assert_eq!(world.saves, 2);
    assert!(!state.pending_save);
    assert_eq!(state.blacklist.into_nets(), ipnets(&["127.0.0.1/32"]));
}

#[test]
fn selects_periodic_full_sync_when_due() {
    let now = Duration::from_secs(100_000);
    let interval = Duration::from_secs(900).as_nanos();

    assert_eq!(
        select_reconcile_mode(true, Some(now.as_nanos()), Some(interval), now.as_nanos()),
        ReconcileMode::FullSync
    );
    assert_eq!(
        select_reconcile_mode(false, None, Some(interval), now.as_nanos()),
        ReconcileMode::FullSync
    );
    assert_eq!(
        select_reconcile_mode(
            false,
            Some((now - Duration::from_secs(901)).as_nanos()),
            Some(interval),
            now.as_nanos(),
        ),
        ReconcileMode::FullSync
    );
    assert_eq!(
        select_reconcile_mode(
            false,
            Some((now - Duration::from_secs(899)).as_nanos()),
            Some(interval),
            now.as_nanos(),
        ),
        ReconcileMode::Incremental
    );
    assert_eq!(
        select_reconcile_mode(false, Some(now.as_nanos()), None, now.as_nanos()),
        ReconcileMode::Incremental
    );
}

#[test]
fn a_clock_that_goes_back_counts_as_no_time() {
    assert_eq!(select_reconcile_mode(false, Some(10), Some(1), 5), ReconcileMode::Incremental);
    assert_eq!(select_reconcile_mode(false, Some(10), Some(0), 5), ReconcileMode::FullSync);
}

#[test]
fn capped_update_fills_the_room_that_is_left() {
    let retained = IpRangeMixed::from(full_group().split_off(1));
    let candidates = range(&["203.0.113.1/32", "198.51.100.0/24", "2001:db8::/64"]);
    let update = build_capped_update(&retained, candidates, range(&["192.0.2.1/32"]));

    assert_eq!(update.decisions.new, ipnets(&["198.51.100.0/24"]));
    assert_eq!(update.decisions.deleted, ipnets(&["192.0.2.1/32"]));
    assert_eq!(update.skipped, 2);
    assert!(!update.at_capacity);
    assert_eq!(update.final_blacklist.net_count(), FIREWALL_GROUP_MAX_ITEMS);
}

#[test]
fn exact_update_takes_no_more_than_a_group_may_hold() {
    let mut nets = full_group();
    nets.push(IpNet::parse("203.0.113.1/32").unwrap());
    nets.push(IpNet::parse("192.0.2.0/24").unwrap());
    let update = build_exact_full_sync_update(ipnets(&["10.0.0.1/32"]), IpRangeMixed::from(nets));

    assert_eq!(update.skipped, 2);
    assert_eq!(update.final_blacklist.net_count(), FIREWALL_GROUP_MAX_ITEMS);
    assert_eq!(update.decisions.new.len(), FIREWALL_GROUP_MAX_ITEMS - 1);
    assert_eq!(update.decisions.new[0], IpNet::parse("192.0.2.0/24").unwrap());
    assert!(update.decisions.deleted.is_empty());
}

#[test]
fn full_sync_converges_and_then_settles() {
    let trusted = range(&["203.0.113.7/32"]);
    let actual = ipnets(&["10.0.0.0/8", "192.0.2.1/32", "2001:db8::1/128"]);
    let decisions = || mock_decisions(&["192.0.2.1", "203.0.113.6/31", "2001:db8::/64"], &["192.0.2.1"]);
    let update = plan_full_sync(actual.clone(), &trusted, decisions());

    assert_eq!(update.decisions.deleted, ipnets(&["10.0.0.0/8", "2001:db8::1/128"]));
    assert_eq!(update.decisions.new, ipnets(&["203.0.113.6/32", "2001:db8::/64"]));
    let mut group: Vec<IpNet> = actual
        .into_iter()
        .filter(|net| !update.decisions.deleted.contains(net))
        .collect();
    group.extend(update.decisions.new.iter().cloned());
    assert_eq!(group, ipnets(&["192.0.2.1/32", "203.0.113.6/32", "2001:db8::/64"]));
    assert_eq!(update.final_blacklist.into_nets(), group);

    let again = plan_full_sync(group, &trusted, decisions());
    assert!(again.decisions.is_empty());
}

#[test]
fn incremental_plan_filters_trusted_and_known_addresses() {
    let blacklist = range(&["10.0.0.0/24", "192.0.2.1/32"]);
    let trusted = range(&["203.0.113.1/32"]);
    let decisions = mock_decisions(
        &["203.0.113.0/31", "10.0.0.7", "198.51.100.1"],
        &["192.0.2.1", "192.0.2.9", "10.0.0.128/25"],
    );
    let update = plan_incremental(&blacklist, &trusted, decisions);

    assert_eq!(update.decisions.new, ipnets(&["198.51.100.1/32", "203.0.113.0/32"]));
    assert_eq!(update.decisions.deleted, ipnets(&["10.0.0.128/25", "192.0.2.1/32"]));
    assert_eq!(
        update.final_blacklist.into_nets(),
        ipnets(&["10.0.0.0/25", "198.51.100.1/32", "203.0.113.0/32"])
    );
}

#[test]
fn releasing_part_of_an_entry_names_no_entry() {
    let update = plan_incremental(
        &range(&["10.0.0.0/24"]),
        &IpRangeMixed::default(),
        mock_decisions(&[], &["10.0.0.5"]),
    );
    assert_eq!(update.decisions.deleted, ipnets(&["10.0.0.5/32"]));
    assert_eq!(update.final_blacklist.net_count(), 8);
}

#[test]
fn trusted_addresses_stay_free_over_many_attempts() {
    let mut config = mock_config();
    config.trusted_ips = range(&["192.0.2.0/28", "2001:db8::1/128"]);
    let mut state = BouncerState::default();
    let mut world = World::default();
    let decisions = || mock_decisions(&["192.0.2.0/24", "2001:db8::/127"], &[]);
    for startup in [false, true, false] {
        world.decisions.push_back(Ok(decisions()));
        assert!(world.reconcile_decisions(&config, &mut state, startup).is_ok());
        assert!(state.blacklist.intersect(&config.trusted_ips).is_empty());
    }
    world.decisions.push_back(Ok(decisions()));
    world.configure.push_back(r#"{"success": false}"#);
    assert!(world.reconcile_decisions(&config, &mut state, true).is_err());
    assert!(state.blacklist.intersect(&config.trusted_ips).is_empty());

    store_existing_blacklist(&mut state, ipnets(&["192.0.2.1/32"]));
    world.decisions.push_back(Ok(decisions()));
    assert!(world.reconcile_decisions(&config, &mut state, true).is_ok());
    assert!(state.blacklist.intersect(&config.trusted_ips).is_empty());
}

#[test]
fn an_update_reports_what_it_changes() {
    let config = mock_config();
    let mut state = BouncerState::default();
    store_existing_blacklist(&mut state, ipnets(&["192.0.2.1/32"]));
    let mut world = World::default();
    world
        .decisions
        .push_back(Ok(mock_decisions(&["198.51.100.1", "203.0.113.1"], &["192.0.2.1"])));
    let run = reconcile_once(&config, ReconcileMode::Incremental);
    let (result, report) = world.run(&config, &mut state, run);
    assert!(result.is_ok());
    assert_eq!(
        report,
        Some(UpdateReport { added: 2, deleted: 1, skipped: 0, at_capacity: false })
    );
}

#[test]
fn incremental_round_without_news_makes_no_request() {
    let config = mock_config();
    let mut state = BouncerState::default();
    store_existing_blacklist(&mut state, ipnets(&["127.0.0.1/32"]));
    state.pending_save = true;
    let mut world = World::default();
    world.decisions.push_back(Ok(DecisionsResponse { new: None, deleted: None }));

    assert!(world.reconcile_decisions(&config, &mut state, false).is_ok());
    assert!(world.configured.is_empty());
    assert_eq!(world.saves, 0);
    assert!(state.pending_save);
    assert_eq!(state.blacklist.into_nets(), ipnets(&["127.0.0.1/32"]));
}

#[test]
fn failed_stream_leaves_everything_as_it_was() {
    let config = mock_config();
    let mut state = BouncerState::default();
    store_existing_blacklist(&mut state, ipnets(&["127.0.0.1/32"]));
    let mut world = World::default();
    world.decisions.push_back(Err(String::from("timed out")));

    let result = world.reconcile_decisions(&config, &mut state, false);
    assert_eq!(result, Err(String::from("timed out")));
    assert!(!state.pending_save);
    assert_eq!(state.blacklist.into_nets(), ipnets(&["127.0.0.1/32"]));
}

#[test]
fn nothing_is_pending_if_changes_are_not_saved() {
    let mut config = mock_config();
    config.vyos_save_config = false;
    let mut state = BouncerState::default();
    let mut world = World::default();
    world.decisions.push_back(Ok(mock_decisions(&["127.0.0.1"], &[])));
    world.configure.push_back(r#"{"success": false}"#);

    assert!(world.reconcile_decisions(&config, &mut state, false).is_err());
    assert!(!state.pending_save);
    assert!(state.blacklist.is_empty());
    assert_eq!(world.saves, 0);
}

#[test]
fn answers_that_do_not_fit_are_ignored() {
    let config = mock_config();
    let mut state = BouncerState::default();
    let run = reconcile_once(&config, ReconcileMode::Incremental);
    let (progress, report) = run.step::<String>(&config, &mut state, Ok(Reply::Done));
    assert_eq!(report, None);
    match progress {
        Progress::Continue(next) => {
            assert!(matches!(next.request(), Request::Stream(options) if !options.startup))
        }
        Progress::Finished(_) => panic!("the decisions are still awaited"),
    }
}

#[test]
fn only_changes_get_the_long_timeout() {
    assert_eq!(UPDATE_TIMEOUT_SECS, 300);
    assert_eq!(Request::Save(Some(300)).timeout_secs(), Some(300));
    assert_eq!(Request::Configure(&[], Some(7)).timeout_secs(), Some(7));
    assert_eq!(Request::Save(None).timeout_secs(), None);
    let options = DecisionsOptions::default();
    assert_eq!(Request::Stream(&options).timeout_secs(), None);
}

#[test]
fn a_round_gives_up_after_eleven_attempts() {
    let config = mock_config();
    let mut state = BouncerState::default();
    let mut world = World::default();
    for _ in 0..11 {
        world.decisions.push_back(Err(String::from("unreachable")));
    }
    let result = world.reconcile_with_retries(&config, &mut state, ReconcileMode::Incremental);
    assert_eq!(result, Err(String::from("unreachable")));
    assert!(world.decisions.is_empty());
    assert_eq!(world.queries[0], default_query(false));
    assert!(world.queries[1..].iter().all(|query| *query == default_query(true)));
}

#[test]
fn a_failed_attempt_is_followed_by_a_pause() {
    let round = start_round(ReconcileMode::Incremental);
    match reconcile_with_retries(round, Err("unreachable"), 7) {
        RoundStep::Sleep(pause, next) => {
            assert_eq!(pause, 57);
            assert_eq!(next.mode, ReconcileMode::FullSync);
            assert_eq!(next.attempts.current_retries, 1);
        }
        RoundStep::Done(_) => panic!("retries are left"),
    }
}

fn mode_of(action: LoopAction) -> ReconcileMode {
    match action {
        LoopAction::Start(round) => round.mode,
        LoopAction::Sleep(_) => panic!("a round was due"),
    }
}

#[test]
fn main_loop_reconciles_fully_at_first_after_failures_and_when_due() {
    let secs = |n: u64| Duration::from_secs(n).as_nanos();
    let config = mock_config();
    let mut schedule = Schedule::default();
    let mut next = |event: LoopEvent<&str>| reconcile(&mut schedule, &config, event);

    assert_eq!(mode_of(next(LoopEvent::Awake(secs(5)))), ReconcileMode::FullSync);
    let ended = next(LoopEvent::Ended(Ok(ReconcileMode::FullSync), secs(6)));
    assert_eq!(ended, LoopAction::Sleep(1));
    assert_eq!(mode_of(next(LoopEvent::Awake(secs(7)))), ReconcileMode::Incremental);
    next(LoopEvent::Ended(Ok(ReconcileMode::Incremental), secs(8)));
    assert_eq!(mode_of(next(LoopEvent::Awake(secs(905)))), ReconcileMode::Incremental);
    next(LoopEvent::Ended(Ok(ReconcileMode::Incremental), secs(905)));
    assert_eq!(mode_of(next(LoopEvent::Awake(secs(906)))), ReconcileMode::FullSync);
    next(LoopEvent::Ended(Ok(ReconcileMode::FullSync), secs(907)));
    assert_eq!(mode_of(next(LoopEvent::Awake(secs(908)))), ReconcileMode::Incremental);
    assert_eq!(next(LoopEvent::Ended(Err("unreachable"), secs(909))), LoopAction::Sleep(1));
    assert_eq!(mode_of(next(LoopEvent::Awake(secs(910)))), ReconcileMode::FullSync);
}
