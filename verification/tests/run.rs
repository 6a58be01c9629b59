use chapter_crawler::assembler::CLOSING;
use chapter_crawler::assembler::OPENING;
use chapter_crawler::assembler::SEPARATOR;
use chapter_crawler::collector::ChapterResult;
use chapter_crawler::identity::PageIdentity;
use chapter_crawler::identity::StartupError;
use chapter_crawler::page::extract_page;
use chapter_crawler::page::FetchError;
use chapter_crawler::page::Page;
use chapter_crawler::state::Completion;
use chapter_crawler::run::CrawlRun;
use chapter_crawler::run::Step;
use chapter_crawler::run::MAX_CONCURRENT_REQUESTS;

fn at(url: &str) -> PageIdentity {
    PageIdentity::parse(url).unwrap()
}

fn pairs(results: &Vec<ChapterResult>) -> Vec<(usize, String)> {
    results.iter().map(|r| (r.index, r.content.clone())).collect()
}

fn page(content: &str, next: Option<&str>) -> Result<Page, FetchError> {
    Ok(Page { content: content.to_string(), next: next.map(at) })
}

/// A site of `pages` pages, `https://site.test/page0` and so on, each linking to
/// the next; the last links to `https://site.test/page{back}` if `loop_to` is
/// set, and the page numbered `broken`, if any, cannot be fetched.
fn site(pages: usize, loop_to: Option<usize>, broken: Option<usize>, url: &PageIdentity) -> Result<Page, FetchError> {
    let number: usize = url.as_str().trim_start_matches("https://site.test/page").parse().unwrap();
    assert!(number < pages);
    if broken == Some(number) {
        return Err(FetchError::NetworkFailure);
    }
    let next = if number + 1 < pages {
        Some(format!("https://site.test/page{}", number + 1))
    } else {
        loop_to.map(|back| format!("https://site.test/page{}", back))
    };
    Ok(Page { content: format!("content {}", number), next: next.map(|n| at(&n)) })
}

/// Runs the crawl to its end, completing the oldest fetch in flight whenever
/// the run has to wait.  Returns the largest number of fetches seen in flight
/// and the number of steps taken.
fn crawl(run: &mut CrawlRun, fetch: &dyn Fn(&PageIdentity) -> Result<Page, FetchError>) -> (usize, usize) {
    let mut in_flight: Vec<PageIdentity> = Vec::new();
    let mut most = 0;
    let mut steps = 0;
    loop {
        steps += 1;
        assert!(steps < 10_000);
        match run.next_step() {
            Step::Fetch { url, .. } => in_flight.push(url),
            Step::Duplicate { .. } => {}
            Step::Wait => {
                let url = in_flight.remove(0);
                let outcome = fetch(&url);
                assert_ne!(run.complete(&url, outcome), Completion::NotInFlight);
            }
            Step::Finished => break,
        }
        assert_eq!(run.in_flight(), in_flight.len());
        assert!(run.in_flight() <= run.capacity());
        most = most.max(run.in_flight());
    }
    assert!(in_flight.is_empty());
    (most, steps)
}

#[test]
fn a_new_run_holds_its_start_page_pending() {
    let mut run = CrawlRun::new(at("https://site.test/page0"), 50);
    assert_eq!(run.capacity(), 50);
    assert_eq!(run.waiting(), 1);
    assert_eq!(run.in_flight(), 0);
    assert!(!run.is_quiescent());
    assert!(run.collected().is_empty());
    assert!(run.failures().is_empty());
    assert!(!run.has_claimed(&at("https://site.test/page0")));
    match run.next_step() {
        Step::Fetch { index, url } => {
            assert_eq!(index, 0);
            assert_eq!(url.as_str(), "https://site.test/page0");
        }
        other => panic!("unexpected step {:?}", other),
    }
    assert_eq!(run.waiting(), 0);
    assert_eq!(run.in_flight(), 1);
    assert!(run.has_claimed(&at("https://site.test/page0")));
    assert!(!run.is_quiescent());
}

#[test]
fn end_to_end_three_pages() {
    let start = at("https://book.test/start");
    let a = at("https://book.test/a");
    let b = at("https://book.test/b");
    let mut run = CrawlRun::new(start.clone(), 50);

    assert!(matches!(run.next_step(), Step::Fetch { index: 0, .. }));
    assert!(matches!(run.next_step(), Step::Wait));
    assert_eq!(
        run.complete(&start, page("start_content", Some("https://book.test/a"))),
        Completion::Emitted { index: 0, spawned: true }
    );
    assert!(matches!(run.next_step(), Step::Fetch { index: 1, .. }));
    assert_eq!(
        run.complete(&a, page("A_content", Some("https://book.test/b"))),
        Completion::Emitted { index: 1, spawned: true }
    );
    assert!(matches!(run.next_step(), Step::Fetch { index: 2, .. }));
    assert!(!run.is_quiescent());
    assert_eq!(
        run.complete(&b, page("B_content", None)),
        Completion::Emitted { index: 2, spawned: false }
    );
    assert!(run.is_quiescent());
    assert!(matches!(run.next_step(), Step::Finished));

    assert_eq!(
        pairs(run.collected()),
        vec![
            (0, "start_content".to_string()),
            (1, "A_content".to_string()),
            (2, "B_content".to_string())
        ]
    );
    assert!(run.failures().is_empty());
    assert_eq!(
        run.into_document(),
        format!("{}start_content{}A_content{}B_content{}", OPENING, SEPARATOR, SEPARATOR, CLOSING)
    );
}

#[test]
fn a_cycle_back_to_the_start_ends_the_crawl() {
    let mut run = CrawlRun::new(at("https://site.test/page0"), 50);
    let (most, _) = crawl(&mut run, &|url| site(3, Some(0), None, url));
    assert_eq!(most, 1);
    assert!(run.is_quiescent());
    assert_eq!(
        pairs(run.collected()),
        vec![
            (0, "content 0".to_string()),
            (1, "content 1".to_string()),
            (2, "content 2".to_string())
        ]
    );
    let document = run.into_document();
    assert_eq!(document.matches("content 0").count(), 1);
    assert_eq!(
        document,
        format!("{}content 0<hr />\ncontent 1<hr />\ncontent 2{}", OPENING, CLOSING)
    );
}

#[test]
fn the_invocation_that_closes_a_cycle_is_a_duplicate() {
    let first = at("https://site.test/page0");
    let second = at("https://site.test/page1");
    let mut run = CrawlRun::new(first.clone(), 2);
    assert!(matches!(run.next_step(), Step::Fetch { index: 0, .. }));
    run.complete(&first, page("zero", Some("https://site.test/page1")));
    assert!(matches!(run.next_step(), Step::Fetch { index: 1, .. }));
    run.complete(&second, page("one", Some("https://site.test/page0")));
    assert_eq!(run.waiting(), 1);
    match run.next_step() {
        Step::Duplicate { index, url } => {
            assert_eq!(index, 2);
            assert_eq!(url.as_str(), "https://site.test/page0");
        }
        other => panic!("unexpected step {:?}", other),
    }
    assert_eq!(run.in_flight(), 0);
    assert_eq!(run.waiting(), 0);
    assert!(run.is_quiescent());
    assert!(matches!(run.next_step(), Step::Finished));
    assert_eq!(pairs(run.collected()), vec![(0, "zero".to_string()), (1, "one".to_string())]);
}

#[test]
fn a_page_that_links_to_itself_is_fetched_once() {
    let mut run = CrawlRun::new(at("https://site.test/page0"), 50);
    crawl(&mut run, &|url| site(1, Some(0), None, url));
    assert_eq!(pairs(run.collected()), vec![(0, "content 0".to_string())]);
}

#[test]
fn a_failure_on_the_fourth_of_five_pages_keeps_the_first_three() {
    let mut run = CrawlRun::new(at("https://site.test/page0"), 50);
    crawl(&mut run, &|url| site(5, None, Some(3), url));
    assert!(run.is_quiescent());
    assert_eq!(
        pairs(run.collected()),
        vec![
            (0, "content 0".to_string()),
            (1, "content 1".to_string()),
            (2, "content 2".to_string())
        ]
    );
    assert_eq!(run.failures().len(), 1);
    assert_eq!(run.failures()[0].url.as_str(), "https://site.test/page3");
    assert_eq!(run.failures()[0].error, FetchError::NetworkFailure);
    assert!(!run.has_claimed(&at("https://site.test/page4")));
    let document = run.into_document();
    assert_eq!(
        document,
        format!("{}content 0<hr />\ncontent 1<hr />\ncontent 2{}", OPENING, CLOSING)
    );
    assert!(!document.contains("content 3"));
    assert!(!document.contains("content 4"));
}

#[test]
fn a_failure_on_the_start_page_yields_the_empty_document() {
    let start = at("https://site.test/page0");
    let mut run = CrawlRun::new(start.clone(), 50);
    assert!(matches!(run.next_step(), Step::Fetch { .. }));
    assert_eq!(
        run.complete(&start, Err(FetchError::ContentNotFound)),
        Completion::Failed { index: 0, error: FetchError::ContentNotFound }
    );
    assert!(run.is_quiescent());
    assert!(run.collected().is_empty());
    assert_eq!(run.failures().len(), 1);
    assert_eq!(run.into_document(), format!("{}{}", OPENING, CLOSING));
}

#[test]
fn each_kind_of_failure_is_reported_as_it_came() {
    for error in [FetchError::NetworkFailure, FetchError::DecodeFailure, FetchError::ContentNotFound] {
        let start = at("https://site.test/page0");
        let mut run = CrawlRun::new(start.clone(), 1);
        run.next_step();
        assert_eq!(run.complete(&start, Err(error)), Completion::Failed { index: 0, error });
        assert_eq!(run.failures()[0].error, error);
        assert_eq!(run.in_flight(), 0);
    }
}

#[test]
fn completing_what_is_not_in_flight_changes_nothing() {
    let start = at("https://site.test/page0");
    let mut run = CrawlRun::new(start.clone(), 50);
    assert_eq!(run.complete(&start, page("early", None)), Completion::NotInFlight);
    assert_eq!(run.waiting(), 1);
    assert!(run.collected().is_empty());
    run.next_step();
    assert_eq!(
        run.complete(&at("https://site.test/other"), page("other", None)),
        Completion::NotInFlight
    );
    assert_eq!(run.in_flight(), 1);
    assert_eq!(run.complete(&start, page("zero", None)), Completion::Emitted { index: 0, spawned: false });
    assert_eq!(run.complete(&start, page("again", None)), Completion::NotInFlight);
    assert_eq!(pairs(run.collected()), vec![(0, "zero".to_string())]);
}

#[test]
fn a_chain_of_ten_links_never_exceeds_two_fetches_in_flight() {
    let mut run = CrawlRun::new(at("https://site.test/page0"), 2);
    let (most, _) = crawl(&mut run, &|url| site(10, None, None, url));
    assert!(most <= 2);
    assert_eq!(run.collected().len(), 10);
    for (k, result) in run.collected().iter().enumerate() {
        assert_eq!(result.index, k);
        assert_eq!(result.content, format!("content {}", k));
    }
}

#[test]
fn ten_chains_share_two_slots() {
    let mut run = CrawlRun::new(at("https://fan.test/c0"), 2);
    for chain in 1..10 {
        run.add_chain(at(&format!("https://fan.test/c{}", chain)));
    }
    assert_eq!(run.waiting(), 10);
    let fetch = |url: &PageIdentity| -> Result<Page, FetchError> {
        Ok(Page { content: url.as_str().to_string(), next: None })
    };
    let (most, _) = crawl(&mut run, &fetch);
    assert_eq!(most, 2);
    assert!(run.is_quiescent());
    assert_eq!(run.collected().len(), 10);
    assert_eq!(run.in_flight(), 0);
}

#[test]
fn a_saturated_run_waits_until_a_slot_is_free() {
    let first = at("https://fan.test/c0");
    let mut run = CrawlRun::new(first.clone(), 1);
    run.add_chain(at("https://fan.test/c1"));
    assert!(matches!(run.next_step(), Step::Fetch { index: 0, .. }));
    assert!(matches!(run.next_step(), Step::Wait));
    assert!(matches!(run.next_step(), Step::Wait));
    assert_eq!(run.waiting(), 1);
    assert_eq!(run.in_flight(), 1);
    run.complete(&first, page("zero", None));
    assert_eq!(run.in_flight(), 0);
    match run.next_step() {
        Step::Fetch { index, url } => {
            assert_eq!(index, 0);
            assert_eq!(url.as_str(), "https://fan.test/c1");
        }
        other => panic!("unexpected step {:?}", other),
    }
}

#[test]
fn two_chains_that_meet_emit_the_shared_page_once() {
    let left = at("https://meet.test/left");
    let right = at("https://meet.test/right");
    let shared = at("https://meet.test/shared");
    let mut run = CrawlRun::new(left.clone(), 2);
    run.add_chain(right.clone());
    assert!(matches!(run.next_step(), Step::Fetch { .. }));
    assert!(matches!(run.next_step(), Step::Fetch { .. }));
    run.complete(&right, page("right", Some("https://meet.test/shared")));
    run.complete(&left, page("left", Some("https://meet.test/shared")));
    assert!(matches!(run.next_step(), Step::Fetch { index: 1, .. }));
    assert!(matches!(run.next_step(), Step::Duplicate { index: 1, .. }));
    assert!(matches!(run.next_step(), Step::Wait));
    run.complete(&shared, page("shared", None));
    assert!(matches!(run.next_step(), Step::Finished));
    assert_eq!(
        pairs(run.collected()),
        vec![(0, "right".to_string()), (0, "left".to_string()), (1, "shared".to_string())]
    );
    assert_eq!(
        run.into_document(),
        format!("{}right<hr />\nleft<hr />\nshared{}", OPENING, CLOSING)
    );
}

#[test]
fn results_that_arrive_out_of_order_are_assembled_in_order() {
    let mut run = CrawlRun::new(at("https://fan.test/c0"), 3);
    run.add_chain(at("https://fan.test/c1"));
    run.add_chain(at("https://fan.test/c2"));
    run.next_step();
    run.next_step();
    run.next_step();
    run.complete(&at("https://fan.test/c2"), page("late start", Some("https://fan.test/d")));
    run.next_step();
    run.complete(&at("https://fan.test/d"), page("second", None));
    run.complete(&at("https://fan.test/c0"), page("first", None));
    run.complete(&at("https://fan.test/c1"), Err(FetchError::DecodeFailure));
    assert!(run.is_quiescent());
    assert_eq!(
        pairs(&run.into_results()),
        vec![(0, "late start".to_string()), (1, "second".to_string()), (0, "first".to_string())]
    );
}

#[test]
fn start_reads_the_start_url() {
    assert_eq!(MAX_CONCURRENT_REQUESTS, 50);
    let mut run = CrawlRun::start("HTTPS://Doc.Rust-Lang.org/stable/book/title-page.html", MAX_CONCURRENT_REQUESTS).unwrap();
    assert_eq!(run.capacity(), 50);
    assert_eq!(run.waiting(), 1);
    match run.next_step() {
        Step::Fetch { index, url } => {
            assert_eq!(index, 0);
            assert_eq!(url.as_str(), "https://doc.rust-lang.org/stable/book/title-page.html");
        }
        other => panic!("unexpected step {:?}", other),
    }
}

#[test]
fn start_refuses_a_malformed_start_url() {
    assert!(matches!(CrawlRun::start("stable/book/title-page.html", 50), Err(StartupError::MalformedUrl)));
    assert!(matches!(CrawlRun::start("", 1), Err(StartupError::MalformedUrl)));
}

#[test]
fn a_crawl_ends_within_two_moves_a_page_and_one_more() {
    for (pages, back) in [(1, 0), (4, 0), (4, 2), (7, 6), (12, 5)] {
        let mut run = CrawlRun::new(at("https://site.test/page0"), 3);
        let mut in_flight: Vec<PageIdentity> = Vec::new();
        let mut moves = 0;
        loop {
            match run.next_step() {
                Step::Fetch { url, .. } => {
                    in_flight.push(url);
                    moves += 1;
                }
                Step::Duplicate { .. } => moves += 1,
                Step::Wait => {
                    let url = in_flight.pop().unwrap();
                    run.complete(&url, site(pages, Some(back), None, &url));
                    moves += 1;
                }
                Step::Finished => break,
            }
            assert!(moves <= 2 * pages + 1);
        }
        assert_eq!(moves, 2 * pages + 1);
        assert_eq!(run.collected().len(), pages);
    }
}

#[test]
fn a_crawl_over_real_markup_follows_the_links() {
    let bodies = [
        "<html><body><main><h1>Title</h1></main><a title=\"Next chapter\" href=\"ch01.html\">&gt;</a></body></html>",
        "<html><body><main><p>One</p></main><a title=\"Next chapter\" href=\"./ch02.html\">&gt;</a></body></html>",
        "<html><body><main><p>Two</p></main><a title=\"Next chapter\" href=\"/book/title.html\">&gt;</a></body></html>",
    ];
    let fetch = |url: &PageIdentity| -> Result<Page, FetchError> {
        let body = match url.as_str() {
            "https://read.test/book/title.html" => bodies[0],
            "https://read.test/book/ch01.html" => bodies[1],
            "https://read.test/book/ch02.html" => bodies[2],
            _ => return Err(FetchError::NetworkFailure),
        };
        extract_page(url, body)
    };
    let mut run = CrawlRun::start("https://read.test/book/title.html", 50).unwrap();
    crawl(&mut run, &fetch);
    assert!(run.failures().is_empty());
    assert_eq!(
        run.into_document(),
        format!("{}<h1>Title</h1><hr />\n<p>One</p><hr />\n<p>Two</p>{}", OPENING, CLOSING)
    );
}
