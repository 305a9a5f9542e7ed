use zone_delta::address::Ipv4Address;
use zone_delta::delta::DnsRecordDelta;
use zone_delta::plan::{notice_line, run_steps, ChangeControl, Notice, Step};
use zone_delta::record::{DesiredRecord, ExistingRecord, RecordContent};

fn want(name: &str, text: &str) -> DesiredRecord {
    DesiredRecord {
        ttl: None,
        priority: None,
        proxied: None,
        name: name.to_string(),
        content: RecordContent::TXT { content: text.to_string() },
    }
}

fn have(id: &str, name: &str, text: &str) -> ExistingRecord {
    ExistingRecord {
        id: id.to_string(),
        name: name.to_string(),
        ttl: 1,
        proxied: false,
        content: RecordContent::TXT { content: text.to_string() },
    }
}

#[test]
fn change_control_understands_two_words() {
    assert_eq!(ChangeControl::from_setting(None), ChangeControl::Plan);
    assert_eq!(ChangeControl::from_setting(Some("dummy")), ChangeControl::Dummy);
    assert_eq!(ChangeControl::from_setting(Some("commit")), ChangeControl::Commit);
    assert_eq!(ChangeControl::from_setting(Some("")), ChangeControl::Plan);
    assert_eq!(ChangeControl::from_setting(Some("Commit")), ChangeControl::Plan);
    assert_eq!(ChangeControl::from_setting(Some("commit ")), ChangeControl::Plan);
    assert_eq!(ChangeControl::from_setting(Some("plan")), ChangeControl::Plan);
}

#[test]
fn only_dummy_stays_away_from_the_provider() {
    assert!(ChangeControl::Plan.reads_zone());
    assert!(ChangeControl::Commit.reads_zone());
    assert!(!ChangeControl::Dummy.reads_zone());
}

#[test]
fn only_commit_commits() {
    assert!(ChangeControl::Commit.commits());
    assert!(!ChangeControl::Plan.commits());
    assert!(!ChangeControl::Dummy.commits());
}

#[test]
fn notices_have_their_words() {
    assert_eq!(Notice::WillAdd.as_str(), "will add");
    assert_eq!(Notice::WillDelete.as_str(), "will delete");
    assert_eq!(Notice::Deleted.as_str(), "deleted");
    assert_eq!(Notice::Added.as_str(), "added");
}

#[test]
fn notice_line_names_zone_notice_record_and_content() {
    let content = RecordContent::A { content: Ipv4Address { octets: [203, 0, 113, 5] } };
    assert_eq!(
        notice_line("example.com", Notice::WillAdd, "www", &content),
        "[example.com] will add: www A 203.0.113.5"
    );
    let content = RecordContent::MX { content: "mail.example.com".to_string(), priority: 10 };
    assert_eq!(
        notice_line("example.com", Notice::Deleted, "example.com", &content),
        "[example.com] deleted: example.com MX mail.example.com 10"
    );
    assert_eq!(
        notice_line("", Notice::Added, "", &RecordContent::TXT { content: String::new() }),
        "[] added:  TXT "
    );
}

#[test]
fn plan_only_announces() {
    let added = vec![want("a1", "x"), want("a2", "y")];
    let deleted = vec![have("1", "d1", "z")];
    let delta = DnsRecordDelta { deleted: deleted.iter().collect(), added: added.iter().collect() };
    let steps = run_steps("example.com", &delta, false);
    assert_eq!(
        steps,
        vec![
            Step::Print("[example.com] will add: a1 TXT x".to_string()),
            Step::Print("[example.com] will add: a2 TXT y".to_string()),
            Step::Print("[example.com] will delete: d1 TXT z".to_string()),
        ]
    );
}

#[test]
fn commit_removes_before_it_creates() {
    let added = vec![want("a1", "x"), want("a2", "y")];
    let deleted = vec![have("1", "d1", "z"), have("2", "d2", "w")];
    let delta = DnsRecordDelta { deleted: deleted.iter().collect(), added: added.iter().collect() };
    let steps = run_steps("example.com", &delta, true);
    assert_eq!(
        steps,
        vec![
            Step::Print("[example.com] will add: a1 TXT x".to_string()),
            Step::Print("[example.com] will add: a2 TXT y".to_string()),
            Step::Print("[example.com] will delete: d1 TXT z".to_string()),
            Step::Print("[example.com] will delete: d2 TXT w".to_string()),
            Step::Delete(&deleted[0]),
            Step::Print("[example.com] deleted: d1 TXT z".to_string()),
            Step::Delete(&deleted[1]),
            Step::Print("[example.com] deleted: d2 TXT w".to_string()),
            Step::Create(&added[0]),
            Step::Print("[example.com] added: a1 TXT x".to_string()),
            Step::Create(&added[1]),
            Step::Print("[example.com] added: a2 TXT y".to_string()),
        ]
    );
}

#[test]
fn empty_delta_gives_no_steps() {
    let delta = DnsRecordDelta { deleted: Vec::new(), added: Vec::new() };
    assert!(run_steps("example.com", &delta, false).is_empty());
    assert!(run_steps("example.com", &delta, true).is_empty());
}
