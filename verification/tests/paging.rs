//! Pages are read match by match, with wider searches where they are needed.

use seshat_index::paging::{Action, Hit, PageSearch};

fn ids(names: &[&str]) -> Vec<String> {
    names.iter().map(|name| name.to_string()).collect()
}

/// Read a page of a ranking where some matches can't be read. Tells the page,
/// and the limits of the searches that it took.
fn read_page(
    limit: usize,
    previous: &[String],
    ranking: &[Option<String>],
) -> (Vec<Hit>, Vec<usize>) {
    let mut search = PageSearch::new(limit, previous.to_vec());
    let mut limits = Vec::new();
    loop {
        match search.action() {
            Action::Search { limit } => {
                limits.push(limit);
                search.found(ranking.len(), ranking.len().min(limit));
            }
            Action::Read { rank } => search.read(ranking[rank].clone()),
            Action::Done => break,
        }
    }
    let (page, before) = search.finish();
    assert_eq!(page.count, ranking.len());
    assert_eq!(before, previous);
    let found: Vec<String> = page.results.iter().map(|hit| hit.event_id.clone()).collect();
    assert_eq!(page.event_ids, found);
    (page.results, limits)
}

fn numbered(count: usize) -> Vec<Option<String>> {
    (0..count).map(|i| Some(format!("${}", i))).collect()
}

#[test]
fn first_page_takes_the_best_matches() {
    let (page, limits) = read_page(2, &[], &numbered(5));
    assert_eq!(
        page,
        [
            Hit { rank: 0, event_id: "$0".to_string() },
            Hit { rank: 1, event_id: "$1".to_string() },
        ]
    );
    assert_eq!(limits, [2]);
}

#[test]
fn page_without_matches_is_empty() {
    let (page, limits) = read_page(10, &[], &[]);
    assert!(page.is_empty());
    assert_eq!(limits, [10]);
}

#[test]
fn later_pages_search_wider() {
    let previous = ids(&["$1", "$0"]);
    let (page, limits) = read_page(2, &previous, &numbered(5));
    assert_eq!(
        page,
        [
            Hit { rank: 2, event_id: "$2".to_string() },
            Hit { rank: 3, event_id: "$3".to_string() },
        ]
    );
    assert_eq!(limits, [2, 52]);
}

#[test]
fn searches_widen_in_steps_of_fifty() {
    let previous: Vec<String> = (0..120).map(|i| format!("${}", i)).collect();
    let (page, limits) = read_page(10, &previous, &numbered(130));
    assert_eq!(page.len(), 10);
    assert_eq!(page[0].rank, 120);
    assert_eq!(page[9].event_id, "$129");
    assert_eq!(limits, [10, 60, 110, 160]);
}

#[test]
fn unreadable_matches_are_skipped() {
    let ranking = [None, Some("$a".to_string()), None, Some("$b".to_string())];
    let (page, _) = read_page(3, &[], &ranking);
    assert_eq!(
        page,
        [
            Hit { rank: 1, event_id: "$a".to_string() },
            Hit { rank: 3, event_id: "$b".to_string() },
        ]
    );
}

#[test]
fn reading_stops_once_the_page_is_full() {
    let mut search = PageSearch::new(1, ids(&["$0"]));
    assert_eq!(search.action(), Action::Search { limit: 1 });
    search.found(3, 1);
    assert_eq!(search.action(), Action::Read { rank: 0 });
    search.read(Some("$0".to_string()));
    assert_eq!(search.action(), Action::Search { limit: 51 });
    search.found(3, 3);
    assert_eq!(search.action(), Action::Read { rank: 0 });
    search.read(Some("$0".to_string()));
    assert_eq!(search.action(), Action::Read { rank: 1 });
    search.read(Some("$1".to_string()));
    assert_eq!(search.action(), Action::Done);
}

#[test]
fn pages_walk_through_all_matches() {
    let ranking = numbered(23);
    let mut seen: Vec<String> = Vec::new();
    let mut order = Vec::new();
    while seen.len() < ranking.len() {
        let (page, _) = read_page(5, &seen, &ranking);
        assert_eq!(page.len(), 5.min(ranking.len() - seen.len()));
        for hit in page {
            order.push(hit.rank);
            seen.insert(0, hit.event_id);
        }
    }
    assert_eq!(order, (0..23).collect::<Vec<usize>>());
}
