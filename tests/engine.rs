use emoji_dl::catalog::{plan_item, select_items, CatalogItem, ExistenceIndex, ItemPlan, SkipReason};
use emoji_dl::naming::{derive_filename, extract_extension, file_stem, is_valid_url, sanitise_filename};
use emoji_dl::retry::{backoff_ms, next_step, RetryStep, MAX_ATTEMPTS};
use emoji_dl::scheduler::{Scheduler, Step, Summary};

fn s(x: &str) -> String {
    x.to_string()
}

#[test]
fn sanitise_keeps_allowed_characters() {
    assert_eq!(sanitise_filename("party-parrot_2"), "party-parrot_2");
}

#[test]
fn sanitise_replaces_and_trims() {
    assert_eq!(sanitise_filename("  hello world! "), "hello_world");
    assert_eq!(sanitise_filename("__a.b__"), "a_b");
    assert_eq!(sanitise_filename("a/b\\c:d"), "a_b_c_d");
}

#[test]
fn sanitise_keeps_unicode_letters_and_digits() {
    assert_eq!(sanitise_filename("héllo wörld"), "héllo_wörld");
    assert_eq!(sanitise_filename("日本"), "日本");
}

#[test]
fn sanitise_of_only_disallowed_is_empty() {
    assert_eq!(sanitise_filename("!!!"), "");
    assert_eq!(sanitise_filename(""), "");
    assert_eq!(sanitise_filename("___"), "");
}

#[test]
fn stem_of_only_disallowed_is_placeholder() {
    assert_eq!(file_stem("!!!"), "emoji");
    assert_eq!(file_stem(" .,/ "), "emoji");
    assert_eq!(file_stem("_"), "emoji");
    assert_eq!(file_stem("ok"), "ok");
}

#[test]
fn extension_from_last_segment() {
    assert_eq!(extract_extension("https://x/y/1.gif"), ".gif");
    assert_eq!(extract_extension("https://x/y/1.png"), ".png");
    assert_eq!(extract_extension("https://x/a.tar.gz"), ".gz");
}

#[test]
fn extension_defaults_to_png() {
    assert_eq!(extract_extension("https://x/y/file"), ".png");
    assert_eq!(extract_extension("https://x.com/y.d/file"), ".png");
    assert_eq!(extract_extension("not-a-url"), ".png");
    assert_eq!(extract_extension(""), ".png");
}

#[test]
fn extension_always_starts_with_dot() {
    for url in ["https://x/y/1.jpeg", "https://x/", "a.b.c", "file.", ".hidden", "x/.."] {
        assert!(extract_extension(url).starts_with('.'), "{}", url);
    }
}

#[test]
fn filename_joins_stem_and_extension() {
    assert_eq!(derive_filename("a", "https://x/y/1.png"), "a.png");
    assert_eq!(derive_filename("blob cat", "https://x/y/2.gif"), "blob_cat.gif");
    assert_eq!(derive_filename("???", "https://x/y/3"), "emoji.png");
}

#[test]
fn url_scheme_check() {
    assert!(is_valid_url("http://host/f"));
    assert!(is_valid_url("https://host/f"));
    assert!(!is_valid_url("ftp://host/f"));
    assert!(!is_valid_url("not-a-url"));
    assert!(!is_valid_url("http:/x"));
    assert!(!is_valid_url(""));
}

#[test]
fn index_membership() {
    let mut index = ExistenceIndex::new();
    assert!(!index.contains(&s("a.png")));
    index.insert(s("a.png"));
    assert!(index.contains(&s("a.png")));
    assert!(!index.contains(&s("b.png")));
    let built = ExistenceIndex::from_names(vec![s("x.gif"), s("y.png")]);
    assert!(built.contains(&s("y.png")));
    assert!(!built.contains(&s("z.png")));
}

#[test]
fn invalid_url_is_skipped_not_fetched() {
    let index = ExistenceIndex::new();
    assert_eq!(plan_item("x", "ftp://host/f", &index), ItemPlan::Skip(SkipReason::InvalidUrl));
}

#[test]
fn present_file_is_skipped_without_request() {
    let index = ExistenceIndex::from_names(vec![s("a.png")]);
    assert_eq!(
        plan_item("a", "https://x/y/1.png", &index),
        ItemPlan::Skip(SkipReason::AlreadyPresent)
    );
}

#[test]
fn new_item_is_fetched_into_its_file() {
    let index = ExistenceIndex::from_names(vec![s("b.png")]);
    assert_eq!(
        plan_item("a", "https://x/y/1.png", &index),
        ItemPlan::Fetch { filename: s("a.png") }
    );
}

#[test]
fn second_run_skips_everything() {
    let items = vec![("a", "https://x/y/1.png"), ("b c", "https://x/y/2.gif"), ("d", "ftp://x/3")];
    let mut index = ExistenceIndex::new();
    let mut written = Vec::new();
    for (name, url) in &items {
        if let ItemPlan::Fetch { filename } = plan_item(name, url, &index) {
            written.push(filename);
        }
    }
    assert_eq!(written, vec![s("a.png"), s("b_c.gif")]);
    for f in written {
        index.insert(f);
    }
    for (name, url) in &items {
        assert!(matches!(plan_item(name, url, &index), ItemPlan::Skip(_)));
    }
}

#[test]
fn select_drops_empty_and_non_string_values() {
    let entries = vec![
        (s("a"), Some(s("https://x/y/1.png"))),
        (s("b"), Some(s(""))),
        (s("c"), Some(s("not-a-url"))),
        (s("d"), None),
    ];
    let items: Vec<CatalogItem> = select_items(entries);
    let got: Vec<(String, String)> = items.into_iter().map(|i| (i.name, i.url)).collect();
    assert_eq!(got, vec![(s("a"), s("https://x/y/1.png")), (s("c"), s("not-a-url"))]);
}

#[test]
fn backoff_doubles() {
    assert_eq!(backoff_ms(1), 500);
    assert_eq!(backoff_ms(2), 1000);
    assert_eq!(backoff_ms(3), 2000);
}

#[test]
fn retry_exhaustion_after_three_attempts() {
    let mut attempt = 1;
    let mut attempts = 0;
    let mut delays = Vec::new();
    let mut failures = 0;
    loop {
        attempts += 1;
        match next_step(attempt, false) {
            RetryStep::Done => panic!("no attempt succeeds"),
            RetryStep::RetryAfter { next_attempt, delay_ms } => {
                delays.push(delay_ms);
                attempt = next_attempt;
            }
            RetryStep::GiveUp => {
                failures += 1;
                break;
            }
        }
    }
    assert_eq!(attempts, MAX_ATTEMPTS);
    assert_eq!(delays, vec![500, 1000]);
    assert_eq!(failures, 1);
}

#[test]
fn retry_stops_on_success() {
    assert_eq!(next_step(1, true), RetryStep::Done);
    assert_eq!(next_step(2, false), RetryStep::RetryAfter { next_attempt: 3, delay_ms: 1000 });
    assert_eq!(next_step(3, true), RetryStep::Done);
}

/// Drives a scheduler to the end, finishing items in the order they were dispatched,
/// and returns the batches it reported, the most items ever in flight, and the summary.
fn drive(total: usize, batch_size: usize, concurrency: usize, fails: &[usize]) -> (Vec<usize>, usize, Summary, Vec<usize>) {
    let mut s = Scheduler::new(total, batch_size, concurrency);
    let mut in_flight = std::collections::VecDeque::new();
    let mut most = 0;
    let mut batches = Vec::new();
    let mut counts = Vec::new();
    loop {
        match s.next_step() {
            Step::Dispatch(i) => {
                in_flight.push_back(i);
                most = most.max(in_flight.len());
            }
            Step::Wait => {
                let i = in_flight.pop_front().expect("an item is in flight");
                counts.push(s.complete(!fails.contains(&i)));
            }
            Step::BatchDone { batch, size } => {
                assert!(in_flight.is_empty());
                assert_eq!(batch, batches.len());
                batches.push(size);
            }
            Step::Finished => break,
        }
    }
    (batches, most, s.summary(), counts)
}

#[test]
fn five_items_in_batches_of_two() {
    let (batches, most, summary, _) = drive(5, 2, 10, &[]);
    assert_eq!(batches, vec![2, 2, 1]);
    assert!(most <= 2);
    assert_eq!(summary, Summary { total_processed: 5, succeeded: 5 });
    assert_eq!(Scheduler::new(5, 2, 10).batch_count(), 3);
}

#[test]
fn concurrency_bound_holds() {
    for (total, batch, conc) in [(10, 10, 3), (7, 100, 1), (20, 6, 4), (9, 3, 5)] {
        let (batches, most, summary, _) = drive(total, batch, conc, &[]);
        assert!(most <= conc);
        assert!(most <= batch);
        assert_eq!(batches.iter().sum::<usize>(), total);
        assert_eq!(summary.total_processed, total);
    }
}

#[test]
fn failures_counted_once() {
    let (_, _, summary, counts) = drive(4, 3, 2, &[1, 3]);
    assert_eq!(summary, Summary { total_processed: 4, succeeded: 2 });
    assert_eq!(counts, vec![1, 2, 3, 4]);
}

#[test]
fn empty_catalog_finishes_at_once() {
    let mut s = Scheduler::new(0, 5, 5);
    assert_eq!(s.batch_count(), 0);
    assert_eq!(s.next_step(), Step::Finished);
    assert_eq!(s.summary(), Summary { total_processed: 0, succeeded: 0 });
}

#[test]
fn catalog_scenario_one_download_one_invalid() {
    let entries = vec![
        (s("a"), Some(s("https://x/y/1.png"))),
        (s("b"), Some(s(""))),
        (s("c"), Some(s("not-a-url"))),
    ];
    let items = select_items(entries);
    assert_eq!(items.len(), 2);
    let index = ExistenceIndex::new();
    let plans: Vec<ItemPlan> = items.iter().map(|i| plan_item(&i.name, &i.url, &index)).collect();
    assert_eq!(plans, vec![ItemPlan::Fetch { filename: s("a.png") }, ItemPlan::Skip(SkipReason::InvalidUrl)]);
    let mut sched = Scheduler::new(items.len(), 5000, 2);
    let mut dispatched = Vec::new();
    loop {
        match sched.next_step() {
            Step::Dispatch(i) => dispatched.push(i),
            Step::Wait => {
                sched.complete(true);
            }
            Step::BatchDone { .. } => {}
            Step::Finished => break,
        }
    }
    assert_eq!(dispatched, vec![0, 1]);
    assert_eq!(sched.summary(), Summary { total_processed: 2, succeeded: 2 });
}
