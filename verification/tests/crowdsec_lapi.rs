use vyos_crowdsec_bouncer::blacklist::IpRangeMixed;
use vyos_crowdsec_bouncer::crowdsec_lapi::{
    default_decision_origins, Decision, DecisionsIpRange, DecisionsNets, DecisionsOptions,
    DecisionsResponse, Origin, Scope,
};
use vyos_crowdsec_bouncer::net::IpNet;

fn net(text: &str) -> IpNet {
    IpNet::parse(text).unwrap()
}

fn decision(value: &str, scope: Scope) -> Decision {
    Decision { value: String::from(value), scope }
}

fn pairs(query: &[(String, String)]) -> Vec<(&str, &str)> {
    query.iter().map(|(k, v)| (k.as_str(), v.as_str())).collect()
}

#[test]
fn queries_narrow_the_decisions() {
    let options = DecisionsOptions::new(default_decision_origins(), false);
    assert!(!options.get_startup());
    assert_eq!(
        pairs(&options.query()),
        vec![
            ("startup", "false"),
            ("type", "ban"),
            ("origins", "crowdsec,lists,cscli"),
            ("scopes", "ip,range"),
            ("dedup", "false"),
        ]
    );
    let one = DecisionsOptions::new(vec![Origin::Lists], true);
    assert_eq!(one.query()[2].1, "lists");
    assert_eq!(pairs(&DecisionsOptions::default().query()), vec![("startup", "false")]);
}

#[test]
fn decisions_are_read_by_their_scope() {
    assert_eq!(decision("192.0.2.1", Scope::Ip).net(), Some(net("192.0.2.1/32")));
    assert_eq!(decision("2001:db8::1", Scope::Ip).net(), Some(net("2001:db8::1/128")));
    assert_eq!(decision("192.0.2.0/24", Scope::Ip).net(), None);
    assert_eq!(decision("192.0.2.0/24", Scope::Range).net(), Some(net("192.0.2.0/24")));
    assert_eq!(decision("192.0.2.1", Scope::Range).net(), None);
    assert_eq!(decision("junk", Scope::Ip).net(), None);
}

#[test]
fn replies_become_sets_of_addresses() {
    let response = DecisionsResponse {
        new: Some(vec![
            decision("192.0.2.0", Scope::Ip),
            decision("junk", Scope::Range),
            decision("192.0.2.1", Scope::Ip),
            decision("198.51.100.0/24", Scope::Range),
        ]),
        deleted: None,
    };
    let range = DecisionsIpRange::from(response);
    assert_eq!(range.new.into_nets(), vec![net("198.51.100.0/24"), net("192.0.2.0/31")]);
    assert!(range.deleted.is_empty());
}

#[test]
fn filters_narrow_each_side() {
    let range = DecisionsIpRange {
        new: IpRangeMixed::from(vec![net("192.0.2.0/31")]),
        deleted: IpRangeMixed::from(vec![net("192.0.2.0/31"), net("2001:db8::/64")]),
    };
    let filter = IpRangeMixed::from(vec![net("192.0.2.1/32"), net("2001:db8::1/128")]);
    let nets = range.filter_new(&filter).filter_deleted(&filter).into_nets();
    assert_eq!(nets.new, vec![net("192.0.2.0/32")]);
    assert_eq!(nets.deleted, vec![net("192.0.2.1/32"), net("2001:db8::1/128")]);
    assert!(!nets.is_empty());
    assert!(DecisionsNets { new: vec![], deleted: vec![] }.is_empty());
}
