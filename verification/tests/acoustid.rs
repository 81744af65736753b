use hark::acoustid::{
    best_match, query, read_answer, read_reply, recall, settle, to_remember, Lookup, Question, Recall, Resolved,
    SegmentMatch, Survey, LOOKUP_URL,
};
use hark::artwork::Reply;
use hark::fingerprint::{Identification, Segment};
use hark::id_cache::{write_found, write_unknown};
use hark::meta_cache::Stamp;
use hark::time::Duration;

const STAMP: Stamp = Stamp {
    mtime_ns: 1,
    size: 2,
};

fn best(text: &str) -> Option<SegmentMatch> {
    best_match(&serde_json::from_str(text).unwrap())
}

const GOOD: &str = r#"{"status":"ok","results":[
    {"score":0.4,"recordings":[{"title":"weak"}]},
    {"score":0.9,"recordings":[
        {"title":"Fajr","artists":[{"name":"Forndom"},{"name":"x"}],
         "releasegroups":[
            {"id":"single","title":"S","type":"Single"},
            {"id":"album","title":"Flykt","type":"Album"},
            {"id":"other","title":"O","type":"Album"}]},
        {"title":"second"}]},
    {"score":0.6}]}"#;

#[test]
fn the_best_result_counts() {
    let m = best(GOOD).unwrap();

    assert_eq!(m.title.as_deref(), Some("Fajr"));
    assert_eq!(m.artist.as_deref(), Some("Forndom"));
    assert_eq!(m.album.as_deref(), Some("Flykt"));
    assert_eq!(m.mbid.as_deref(), Some("album"));
}

#[test]
fn the_last_of_equally_good_results_counts() {
    let m = best(
        r#"{"results":[{"score":0.8,"recordings":[{"title":"a"}]},
                       {"score":0.8,"recordings":[{"title":"b"}]},
                       {"score":0.7,"recordings":[{"title":"c"}]}]}"#,
    );

    assert_eq!(m.unwrap().title.as_deref(), Some("b"));
}

#[test]
fn a_weak_result_is_not_trusted() {
    assert!(best(r#"{"results":[{"score":0.49999}]}"#).is_none());
    assert!(best(r#"{"results":[{"score":0.5}]}"#).is_some());
    assert!(best(r#"{"results":[{"score":-1}]}"#).is_none());
    assert!(best(r#"{"results":[{"score":1}]}"#).is_some());
    assert!(best(r#"{"results":[{"score":"1"}]}"#).is_none());
    assert!(best(r#"{"results":[{}]}"#).is_none());
    assert!(best(r#"{"results":[]}"#).is_none());
    assert!(best(r#"{"results":{}}"#).is_none());
    assert!(best("[]").is_none());
}

#[test]
fn release_groups_may_hang_off_the_result() {
    let m = best(
        r#"{"results":[{"score":1.0,"releasegroups":[{"id":"r","title":"R","type":"Single"}]}]}"#,
    )
    .unwrap();
    assert_eq!(m.mbid.as_deref(), Some("r"));
    assert_eq!(m.album.as_deref(), Some("R"));
    assert_eq!(m.title, None);

    // An empty list on the recording is a list all the same.
    let m = best(
        r#"{"results":[{"score":1.0,"recordings":[{"releasegroups":[]}],
            "releasegroups":[{"id":"r"}]}]}"#,
    )
    .unwrap();
    assert_eq!(m.mbid, None);
}

fn reply(status: u16, body: &[u8]) -> Option<Reply> {
    Some(Reply {
        status,
        body: Some(body.to_vec()),
    })
}

#[test]
fn replies_are_told_apart() {
    assert!(matches!(read_reply(&None), Lookup::Transient));
    assert!(matches!(
        read_reply(&Some(Reply {
            status: 200,
            body: None,
        })),
        Lookup::Transient
    ));
    assert!(matches!(read_reply(&reply(200, b"<html>")), Lookup::Transient));
    assert!(matches!(
        read_reply(&reply(
            200,
            br#"{"status":"error","error":{"message":"invalid API key"}}"#
        )),
        Lookup::ServiceError(message) if message == "invalid API key"
    ));
    assert!(matches!(
        read_reply(&reply(200, b"{}")),
        Lookup::ServiceError(message) if message == "unknown error"
    ));
    assert!(matches!(
        read_reply(&reply(200, br#"{"status":"ok"}"#)),
        Lookup::Answer(None)
    ));
    assert!(matches!(
        read_reply(&reply(200, GOOD.as_bytes())),
        Lookup::Answer(Some(m)) if m.title.as_deref() == Some("Fajr")
    ));
}

#[test]
fn an_answer_is_a_match_or_a_complaint() {
    let mut answer = serde_json::Value::Object(serde_json::Map::new());
    assert!(matches!(
        read_answer(&answer),
        Lookup::ServiceError(message) if message == "unknown error"
    ));
    answer["status"] = serde_json::Value::from("ok");
    assert!(matches!(read_answer(&answer), Lookup::Answer(None)));
}

#[test]
fn a_server_that_failed_is_asked_again() {
    let complaint = br#"{"status":"error","error":{"message":"internal error"}}"#;
    for status in [500, 502, 503, 599] {
        assert!(matches!(read_reply(&reply(status, complaint)), Lookup::Transient));
        assert!(matches!(
            read_reply(&reply(status, GOOD.as_bytes())),
            Lookup::Transient
        ));
    }
    // What is wrong with a question is the service's to say, whatever the status.
    for status in [400, 401, 499, 600] {
        assert!(matches!(
            read_reply(&reply(status, complaint)),
            Lookup::ServiceError(message) if message == "internal error"
        ));
    }
}

fn matching(title: &str, mbid: Option<&str>) -> Option<SegmentMatch> {
    Some(SegmentMatch {
        title: Some(title.to_string()),
        artist: Some(format!("artist of {title}")),
        album: Some(format!("album of {title}")),
        mbid: mbid.map(str::to_string),
    })
}

#[test]
fn the_album_is_what_most_stretches_agree_on() {
    let matches = vec![
        matching("a", Some("x")),
        matching("b", Some("y")),
        None,
        matching("c", Some("y")),
        matching("d", None),
    ];

    let Resolved::Found(id) = settle(&matches, true, true) else {
        panic!("nothing was found");
    };
    assert_eq!(id.mbid, "y");
    assert_eq!(id.artist.as_deref(), Some("artist of b"));
    assert_eq!(id.album.as_deref(), Some("album of b"));
    let titles: Vec<Option<&str>> = id.chapter_titles.iter().map(|t| t.as_deref()).collect();
    assert_eq!(titles, vec![Some("a"), Some("b"), None, Some("c"), Some("d")]);
}

#[test]
fn nothing_found_is_a_miss_unless_nothing_was_heard() {
    let none = vec![None, matching("x", None)];

    assert!(matches!(settle(&none, false, true), Resolved::Miss));
    assert!(matches!(settle(&none, true, true), Resolved::Miss));
    assert!(matches!(settle(&none, false, false), Resolved::Miss));
    assert!(matches!(settle(&none, true, false), Resolved::Transient));
}

#[test]
fn a_question_names_the_key_and_the_sound() {
    let question = Question {
        fingerprint: "AQAD".to_string(),
        seconds: "200".to_string(),
        wait: false,
    };

    let pairs = query("key", &question);
    let pairs: Vec<(&str, &str)> = pairs
        .iter()
        .map(|(key, value)| (key.as_str(), value.as_str()))
        .collect();
    assert_eq!(
        pairs,
        vec![
            ("client", "key"),
            ("meta", "recordings releasegroups"),
            ("duration", "200"),
            ("fingerprint", "AQAD"),
        ]
    );
    assert_eq!(LOOKUP_URL, "https://api.acoustid.org/v2/lookup");
}

fn segment(millis: u64) -> Segment {
    Segment {
        start: Duration::zero(),
        cap_end: Duration::zero(),
        report_duration: Duration::from_millis(millis),
    }
}

#[test]
fn every_stretch_is_asked_about_in_turn() {
    let segments = vec![segment(200_900), segment(0), segment(1_000), segment(999)];
    let prints = vec![
        Some("A".to_string()),
        None,
        Some("C".to_string()),
        Some("D".to_string()),
    ];
    let mut survey = Survey::new(segments, prints);

    let question = survey.ask().unwrap();
    assert_eq!(question.fingerprint, "A");
    assert_eq!(question.seconds, "200");
    assert!(!question.wait);
    survey.hear(Lookup::Answer(matching("a", Some("x"))));

    // The second has no fingerprint and is passed over; now there is a pause.
    let question = survey.ask().unwrap();
    assert_eq!(question.fingerprint, "C");
    assert_eq!(question.seconds, "1");
    assert!(question.wait);
    survey.hear(Lookup::Transient);

    let question = survey.ask().unwrap();
    assert_eq!(question.fingerprint, "D");
    assert_eq!(question.seconds, "1");
    survey.hear(Lookup::Answer(None));

    assert!(survey.ask().is_none());
    let Resolved::Found(id) = survey.conclude() else {
        panic!("nothing was found");
    };
    assert_eq!(id.mbid, "x");
    let titles: Vec<Option<&str>> = id.chapter_titles.iter().map(|t| t.as_deref()).collect();
    assert_eq!(titles, vec![Some("a"), None, None, None]);
}

#[test]
fn a_service_that_refuses_is_asked_no_more() {
    let mut survey = Survey::new(
        vec![segment(1_000), segment(1_000)],
        vec![Some("A".to_string()), Some("B".to_string())],
    );
    survey.ask();
    survey.hear(Lookup::ServiceError("bad key".to_string()));

    assert!(survey.ask().is_none());
    assert!(matches!(survey.conclude(), Resolved::Transient));
}

fn identity() -> Identification {
    Identification {
        mbid: "m".to_string(),
        artist: None,
        album: None,
        chapter_titles: vec![None],
    }
}

#[test]
fn an_answer_is_remembered_on_the_file() {
    let attribute = write_found(STAMP, &identity()).unwrap();

    assert!(matches!(
        recall(Some(STAMP), Some(&attribute)),
        Recall::Known(id) if id.mbid == "m"
    ));
    assert!(matches!(
        recall(Some(STAMP), Some(&write_unknown(STAMP).unwrap())),
        Recall::Unknown
    ));
    assert!(matches!(recall(Some(STAMP), None), Recall::Ask));
    assert!(matches!(recall(None, Some(&attribute)), Recall::Ask));
    let touched = Stamp { size: 3, ..STAMP };
    assert!(matches!(recall(Some(touched), Some(&attribute)), Recall::Ask));
}

#[test]
fn only_definite_answers_are_remembered() {
    assert_eq!(
        to_remember(Some(STAMP), &Resolved::Found(identity())),
        write_found(STAMP, &identity())
    );
    assert_eq!(
        to_remember(Some(STAMP), &Resolved::Miss),
        write_unknown(STAMP)
    );
    assert_eq!(to_remember(Some(STAMP), &Resolved::Transient), None);
    assert_eq!(to_remember(None, &Resolved::Miss), None);
}
