use std::collections::HashMap;

use user_embedding::model::{Entry, ImpressionRecord, BERTV2_EMBEDDING_DIMENSION, MAX_TITLE_TOKENS};
use user_embedding::pipeline::{
    classify_entry, Action, EntryOutcome, Event, Fatal, Phase, PriorOutcome, Run,
};

const D: usize = BERTV2_EMBEDDING_DIMENSION;

fn records(entry_ids: &[&str]) -> Vec<ImpressionRecord> {
    entry_ids
        .iter()
        .enumerate()
        .map(|(i, e)| ImpressionRecord { impression_id: format!("imp-{}", i), entry_id: e.to_string() })
        .collect()
}

/// Drives a run through the sampling stage: `entries` maps an id to its
/// title (or `None` for no title); ids absent from it are missing. Returns
/// every action issued, the last one being the first after the sampling stage.
fn drive_sampling(run: &mut Run, ids: &[&str], entries: &HashMap<&str, Option<&str>>) -> Vec<Action> {
    let mut actions = vec![run.step(Event::Begin)];
    let mut next = run.step(Event::Impressions(Some(records(ids))));
    loop {
        actions.push(next.clone());
        next = match next {
            Action::LookupEntry { id } => {
                let found = entries.get(id.as_str()).map(|t| Entry { id: id.clone(), title: t.map(|s| s.to_string()) });
                run.step(Event::EntryFound(found))
            }
            Action::EncodeTitle { .. } => run.step(Event::Encoded(Some(D))),
            Action::AddEncoding => run.step(Event::Applied),
            _ => break,
        };
    }
    actions
}

fn encoded_titles(run: &Run) -> Vec<String> {
    run.outcomes
        .iter()
        .filter_map(|o| match o {
            EntryOutcome::Encoded { title, .. } => Some(title.clone()),
            _ => None,
        })
        .collect()
}

#[test]
fn classify_entry_reports_each_case() {
    let id = "e1".to_string();
    assert_eq!(classify_entry(&id, None), Err(EntryOutcome::MissingEntry { id: id.clone() }));
    assert_eq!(
        classify_entry(&id, Some(Entry { id: id.clone(), title: None })),
        Err(EntryOutcome::MissingTitle { id: id.clone() })
    );
    assert_eq!(
        classify_entry(&id, Some(Entry { id: id.clone(), title: Some("cats".to_string()) })),
        Ok("cats".to_string())
    );
}

#[test]
fn three_titles_without_source_prior() {
    let mut run = Run::new("tenant".to_string());
    let entries: HashMap<&str, Option<&str>> =
        [("e1", Some("cats")), ("e2", Some("dogs")), ("e3", Some("cats"))].into_iter().collect();
    let actions = drive_sampling(&mut run, &["e1", "e2", "e3"], &entries);
    assert_eq!(actions[0], Action::ListImpressions { source: "tenant".to_string() });
    assert_eq!(
        actions.last().unwrap(),
        &Action::FetchSourcePrior { source: "tenant".to_string(), dim: 384 }
    );
    assert_eq!(actions.iter().filter(|a| **a == Action::AddEncoding).count(), 3);
    assert!(actions.contains(&Action::EncodeTitle { title: "dogs".to_string(), max_tokens: 512 }));
    let mut titles = encoded_titles(&run);
    titles.sort();
    assert_eq!(titles, vec!["cats".to_string(), "cats".to_string(), "dogs".to_string()]);
    assert_eq!(run.step(Event::Fetched(None)), Action::NormalizeAccumulator);
    assert_eq!(run.prior, PriorOutcome::Missing);
    assert_eq!(run.step(Event::Applied), Action::FetchExisting { dim: D });
}

#[test]
fn all_missing_or_untitled_adds_nothing() {
    let mut run = Run::new("tenant".to_string());
    let entries: HashMap<&str, Option<&str>> = [("e2", None)].into_iter().collect();
    let actions = drive_sampling(&mut run, &["e1", "e2"], &entries);
    assert!(!actions.contains(&Action::AddEncoding));
    assert!(actions.iter().all(|a| !matches!(a, Action::EncodeTitle { .. })));
    let mut outcomes = run.outcomes.clone();
    outcomes.sort_by_key(|o| format!("{:?}", o));
    assert_eq!(
        outcomes,
        vec![
            EntryOutcome::MissingEntry { id: "e1".to_string() },
            EntryOutcome::MissingTitle { id: "e2".to_string() },
        ]
    );
    assert!(encoded_titles(&run).is_empty());
}

#[test]
fn prior_alone_is_added_then_normalized() {
    let mut run = Run::new("tenant".to_string());
    let entries: HashMap<&str, Option<&str>> = HashMap::new();
    let actions = drive_sampling(&mut run, &["e1"], &entries);
    assert!(!actions.contains(&Action::AddEncoding));
    assert_eq!(run.step(Event::Fetched(Some(D))), Action::AddSourcePrior);
    assert_eq!(run.prior, PriorOutcome::Added);
    assert_eq!(run.step(Event::Applied), Action::NormalizeAccumulator);
}

#[test]
fn failed_encoding_is_skipped() {
    let mut run = Run::new("s".to_string());
    run.step(Event::Begin);
    assert_eq!(
        run.step(Event::Impressions(Some(records(&["e1"])))),
        Action::LookupEntry { id: "e1".to_string() }
    );
    let found = Some(Entry { id: "e1".to_string(), title: Some("cats".to_string()) });
    assert_eq!(
        run.step(Event::EntryFound(found)),
        Action::EncodeTitle { title: "cats".to_string(), max_tokens: MAX_TITLE_TOKENS }
    );
    assert_eq!(
        run.step(Event::Encoded(None)),
        Action::FetchSourcePrior { source: "s".to_string(), dim: D }
    );
    assert_eq!(run.outcomes, vec![EntryOutcome::EncodingFailure { id: "e1".to_string() }]);
}

#[test]
fn no_impressions_goes_straight_to_prior() {
    let mut run = Run::new("s".to_string());
    run.step(Event::Begin);
    assert_eq!(
        run.step(Event::Impressions(Some(Vec::new()))),
        Action::FetchSourcePrior { source: "s".to_string(), dim: D }
    );
    assert!(run.sample.is_empty());
}

#[test]
fn full_run_writes_once_and_finishes() {
    let mut run = Run::new("s".to_string());
    let entries: HashMap<&str, Option<&str>> = [("e1", Some("cats"))].into_iter().collect();
    drive_sampling(&mut run, &["e1"], &entries);
    assert_eq!(run.step(Event::Fetched(Some(D))), Action::AddSourcePrior);
    assert_eq!(run.step(Event::Applied), Action::NormalizeAccumulator);
    assert_eq!(run.step(Event::Applied), Action::FetchExisting { dim: D });
    assert_eq!(run.step(Event::Fetched(Some(D))), Action::MergeExisting);
    assert_eq!(run.step(Event::Applied), Action::Persist);
    assert_eq!(run.step(Event::Applied), Action::Finish);
    assert_eq!(run.phase, Phase::Done);
    assert_eq!(run.step(Event::Applied), Action::Finish);
}

#[test]
fn failed_existing_fetch_never_persists() {
    let mut run = Run::new("s".to_string());
    drive_sampling(&mut run, &[], &HashMap::new());
    run.step(Event::Fetched(None));
    run.step(Event::Applied);
    assert_eq!(run.phase, Phase::FetchingExisting);
    let abort = Action::Abort { fatal: Fatal::ExistingUnavailable };
    assert_eq!(run.step(Event::Fetched(None)), abort);
    assert_eq!(run.fatal, Some(Fatal::ExistingUnavailable));
    for event in [Event::Applied, Event::Fetched(Some(D)), Event::Begin] {
        assert_eq!(run.step(event), abort);
    }
    assert_eq!(run.phase, Phase::Aborted);
}

#[test]
fn listing_failure_is_fatal() {
    let mut run = Run::new("s".to_string());
    run.step(Event::Begin);
    assert_eq!(
        run.step(Event::Impressions(None)),
        Action::Abort { fatal: Fatal::ImpressionsUnavailable }
    );
}

#[test]
fn wrong_sized_encoding_is_skipped_but_wrong_sized_prior_or_existing_is_fatal() {
    let mut run = Run::new("s".to_string());
    let entries: HashMap<&str, Option<&str>> = [("e1", Some("cats"))].into_iter().collect();
    run.step(Event::Begin);
    run.step(Event::Impressions(Some(records(&["e1"]))));
    run.step(Event::EntryFound(Some(Entry { id: "e1".to_string(), title: Some("cats".to_string()) })));
    assert_eq!(
        run.step(Event::Encoded(Some(D - 1))),
        Action::FetchSourcePrior { source: "s".to_string(), dim: D }
    );
    assert_eq!(run.outcomes, vec![EntryOutcome::EncodingFailure { id: "e1".to_string() }]);
    assert!(run.fatal.is_none());

    let mismatch = Action::Abort { fatal: Fatal::DimensionMismatch };
    let mut run = Run::new("s".to_string());
    drive_sampling(&mut run, &["e1"], &entries);
    assert_eq!(run.step(Event::Fetched(Some(D + 1))), mismatch);

    let mut run = Run::new("s".to_string());
    drive_sampling(&mut run, &[], &HashMap::new());
    run.step(Event::Fetched(None));
    run.step(Event::Applied);
    assert_eq!(run.step(Event::Fetched(Some(0))), mismatch);
}

#[test]
fn out_of_order_event_is_fatal() {
    let mut run = Run::new("s".to_string());
    assert_eq!(run.step(Event::Applied), Action::Abort { fatal: Fatal::UnexpectedEvent });
    assert_eq!(run.phase, Phase::Aborted);
}
