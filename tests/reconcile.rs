use quizlink::config::{bool_default_true, Config};
use quizlink::ledger::{
    distinct_prefix, draw_uuids, extend_lock, lock_contains, ConfigError, QuizLock,
};
use quizlink::watch::{next_action, WatchAction, WatchEvent};

const T1: u128 = 0xa1a2a3a4_b1b2_41c2_91d2_d3d4d5d6d7d8;
const T2: u128 = 0x0f1e2d3c_4b5a_4968_8776_655443322110;
const T3: u128 = 0x11111111_2222_4333_8444_555555555555;

fn locks(ts: &[u128]) -> Vec<QuizLock> {
    ts.iter().map(|t| QuizLock { uuid: *t }).collect()
}

fn uuids(c: &Config<&'static str>) -> Vec<u128> {
    c.lock.iter().map(|l| l.uuid).collect()
}

fn all_distinct(ts: &[u128]) -> bool {
    for a in 0..ts.len() {
        for b in (a + 1)..ts.len() {
            if ts[a] == ts[b] {
                return false;
            }
        }
    }
    true
}

fn is_v4(t: u128) -> bool {
    (t >> 76) & 0xf == 4 && (t >> 62) & 0x3 == 2
}

#[test]
fn fresh_two_entries_get_two_distinct_tokens() {
    let (c, removed) = Config::new(true, vec!["A", "B"], None).unwrap();
    let ts = uuids(&c);
    assert_eq!(ts.len(), 2);
    assert_ne!(ts[0], ts[1]);
    assert!(removed.is_empty());
    assert_eq!(c.quiz, vec!["A", "B"]);
    assert!(c.powered_by);
}

#[test]
fn fresh_ledger_is_distinct_and_random() {
    let entries: Vec<&'static str> = (0..200).map(|_| "x").collect();
    let (c, removed) = Config::new(false, entries, None).unwrap();
    let ts = uuids(&c);
    assert_eq!(ts.len(), 200);
    assert!(all_distinct(&ts));
    assert!(ts.iter().all(|t| is_v4(*t)));
    assert!(removed.is_empty());
    assert!(!c.powered_by);
}

#[test]
fn same_length_keeps_ledger_verbatim() {
    let (c, removed) = Config::new(true, vec!["A", "B"], Some(locks(&[T1, T2]))).unwrap();
    assert_eq!(uuids(&c), vec![T1, T2]);
    assert!(removed.is_empty());
}

#[test]
fn reconcile_twice_is_idempotent() {
    let (c, _) = Config::new(true, vec!["A", "B", "C"], None).unwrap();
    let first = uuids(&c);
    let (again, removed) = Config::new(true, vec!["A", "B", "C"], Some(c.lock.clone())).unwrap();
    assert_eq!(uuids(&again), first);
    assert!(removed.is_empty());
}

#[test]
fn growth_appends_new_tokens() {
    let (c, removed) = Config::new(true, vec!["A", "B", "C"], Some(locks(&[T1, T2]))).unwrap();
    let ts = uuids(&c);
    assert_eq!(ts.len(), 3);
    assert_eq!(&ts[..2], &[T1, T2]);
    assert!(ts[2] != T1 && ts[2] != T2);
    assert!(removed.is_empty());
}

#[test]
fn growth_by_several_keeps_prefix_and_adds_distinct() {
    let entries = vec!["A", "B", "C", "D", "E", "F"];
    let (c, removed) = Config::new(true, entries, Some(locks(&[T1, T2]))).unwrap();
    let ts = uuids(&c);
    assert_eq!(ts.len(), 6);
    assert_eq!(&ts[..2], &[T1, T2]);
    assert!(all_distinct(&ts));
    assert!(removed.is_empty());
}

#[test]
fn shrink_drops_tail_and_reports_it() {
    let (c, removed) = Config::new(true, vec!["A", "B"], Some(locks(&[T1, T2, T3]))).unwrap();
    assert_eq!(uuids(&c), vec![T1, T2]);
    assert_eq!(removed, vec![T3]);
}

#[test]
fn shrink_by_two_reports_both_last_first() {
    let (c, removed) = Config::new(true, vec!["A"], Some(locks(&[T1, T2, T3]))).unwrap();
    assert_eq!(uuids(&c), vec![T1]);
    assert_eq!(removed, vec![T3, T2]);
}

#[test]
fn empty_entry_set_is_rejected() {
    let r = Config::<&'static str>::new(true, vec![], None);
    assert_eq!(r.err(), Some(ConfigError::NoQuiz));
    let r = Config::<&'static str>::new(true, vec![], Some(locks(&[T1])));
    assert_eq!(r.err(), Some(ConfigError::NoQuiz));
}

#[test]
fn duplicate_kept_tokens_are_rejected() {
    let r = Config::new(true, vec!["A", "B"], Some(locks(&[T1, T1])));
    assert_eq!(r.err(), Some(ConfigError::DuplicateUuid));
    let r = Config::new(true, vec!["A", "B", "C"], Some(locks(&[T2, T2])));
    assert_eq!(r.err(), Some(ConfigError::DuplicateUuid));
}

#[test]
fn duplicate_in_removed_tail_is_harmless() {
    let (c, removed) = Config::new(true, vec!["A"], Some(locks(&[T1, T1]))).unwrap();
    assert_eq!(uuids(&c), vec![T1]);
    assert_eq!(removed, vec![T1]);
}

#[test]
fn default_powered_by_is_true() {
    assert!(bool_default_true());
}

#[test]
fn lock_contains_finds_tokens() {
    let l = locks(&[T1, T2]);
    assert!(lock_contains(&l, T2));
    assert!(!lock_contains(&l, T3));
    assert!(!lock_contains(&Vec::new(), T1));
}

#[test]
fn distinct_prefix_checks_only_the_prefix() {
    let l = locks(&[T1, T2, T1]);
    assert!(distinct_prefix(&l, 2));
    assert!(!distinct_prefix(&l, 3));
    assert!(distinct_prefix(&l, 0));
}

#[test]
fn draw_uuids_gives_random_tokens() {
    let d = draw_uuids(5);
    assert_eq!(d.len(), 5);
    assert!(d.iter().all(|t| is_v4(*t)));
    assert!(draw_uuids(0).is_empty());
}

#[test]
fn extend_lock_with_fresh_candidates_takes_them_in_order() {
    let mut l = locks(&[T1]);
    assert!(extend_lock(&mut l, 3, &vec![T2, T3, 99]));
    assert_eq!(l.iter().map(|x| x.uuid).collect::<Vec<_>>(), vec![T1, T2, T3]);
}

#[test]
fn extend_lock_skips_taken_candidates() {
    let mut l = locks(&[T1]);
    assert!(extend_lock(&mut l, 3, &vec![T1, T2, T2, T3]));
    assert_eq!(l.iter().map(|x| x.uuid).collect::<Vec<_>>(), vec![T1, T2, T3]);
}

#[test]
fn extend_lock_reports_running_out() {
    let mut l = locks(&[T1]);
    assert!(!extend_lock(&mut l, 3, &vec![T1, T2]));
    assert_eq!(l.iter().map(|x| x.uuid).collect::<Vec<_>>(), vec![T1, T2]);
    let mut e: Vec<QuizLock> = Vec::new();
    assert!(extend_lock(&mut e, 0, &vec![]));
    assert!(e.is_empty());
}

#[test]
fn only_writes_trigger_reload() {
    assert_eq!(next_action(WatchEvent::Written), WatchAction::Reload);
    assert_eq!(next_action(WatchEvent::Other), WatchAction::Ignore);
    assert_eq!(next_action(WatchEvent::Closed), WatchAction::Stop);
}

#[test]
fn validate_cuts_from_the_end() {
    let mut c = Config { powered_by: true, quiz: vec!["A"], lock: locks(&[T1, T2, T3]) };
    assert_eq!(c.validate(), Ok(vec![T3, T2]));
    assert_eq!(uuids(&c), vec![T1]);
    let mut e: Config<&'static str> = Config { powered_by: true, quiz: vec![], lock: locks(&[T1]) };
    assert_eq!(e.validate(), Err(ConfigError::NoQuiz));
}
