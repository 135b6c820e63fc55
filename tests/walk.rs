use std::collections::HashMap;

use backup::failure::FailurePolicy;
use backup::filter::{ExclusionRule, PatternError, PatternFilter};
use backup::tags::{select_contents, TagKeepMode, TagRule, TagRules};
use backup::walk::{descends_into, join, scan_path, Probe, WalkEntry, Walker};

fn b(s: &str) -> Vec<u8> {
    s.as_bytes().to_vec()
}

fn tag_rules(rules: &[(&str, TagKeepMode)]) -> TagRules {
    let mut tags = TagRules::new();
    for (name, mode) in rules {
        tags.push(TagRule { name: b(name), mode: *mode });
    }
    tags
}

fn filter_of(patterns: &[&str]) -> PatternFilter {
    let mut filter = PatternFilter::new();
    for p in patterns {
        filter.push(ExclusionRule::new(p).unwrap());
    }
    filter
}

/// A directory tree held in memory: each path maps to its listing, or to
/// `None` for a file. A path that is absent cannot be read.
fn run_walk(tree: &HashMap<Vec<u8>, Option<Vec<&str>>>, root: &str, filter: &PatternFilter, tags: &TagRules) -> Vec<String> {
    let mut visited = Vec::new();
    let mut walker = Walker::new(b(root), b("root"));
    while let Some(entry) = walker.next_entry(filter) {
        let probe = match tree.get(&entry.path) {
            None => Probe::Skipped,
            Some(None) => Probe::Leaf,
            Some(Some(listing)) => Probe::Dir(listing.iter().map(|n| b(n)).collect()),
        };
        if walker.expand(tags, &entry, probe) {
            visited.push(String::from_utf8(entry.name.clone()).unwrap());
        }
    }
    visited
}

fn scenario_tree() -> HashMap<Vec<u8>, Option<Vec<&'static str>>> {
    let mut tree = HashMap::new();
    tree.insert(b("/r"), Some(vec!["a.txt", "sub"]));
    tree.insert(b("/r/a.txt"), None);
    tree.insert(b("/r/sub"), Some(vec!["b.txt", "CACHEDIR.TAG", "c.txt"]));
    tree.insert(b("/r/sub/b.txt"), None);
    tree.insert(b("/r/sub/CACHEDIR.TAG"), None);
    tree.insert(b("/r/sub/c.txt"), None);
    tree
}

#[test]
fn scenario_tag_only_keeps_marker() {
    let tags = tag_rules(&[("CACHEDIR.TAG", TagKeepMode::TagOnly)]);
    let visited = run_walk(&scenario_tree(), "/r", &PatternFilter::new(), &tags);
    assert_eq!(visited, vec!["root", "root/a.txt", "root/sub", "root/sub/CACHEDIR.TAG"]);
}

#[test]
fn marker_nothing_leaves_directory_out() {
    let tags = tag_rules(&[("CACHEDIR.TAG", TagKeepMode::Nothing)]);
    let visited = run_walk(&scenario_tree(), "/r", &PatternFilter::new(), &tags);
    assert_eq!(visited, vec!["root", "root/a.txt"]);
}

#[test]
fn marker_all_keeps_everything() {
    let tags = tag_rules(&[("CACHEDIR.TAG", TagKeepMode::All)]);
    let visited = run_walk(&scenario_tree(), "/r", &PatternFilter::new(), &tags);
    assert_eq!(
        visited,
        vec!["root", "root/a.txt", "root/sub", "root/sub/b.txt", "root/sub/CACHEDIR.TAG", "root/sub/c.txt"]
    );
}

#[test]
fn excluded_directory_and_contents_not_visited() {
    let filter = filter_of(&["/sub$"]);
    let visited = run_walk(&scenario_tree(), "/r", &filter, &TagRules::new());
    assert_eq!(visited, vec!["root", "root/a.txt"]);
}

#[test]
fn excluded_file_not_visited() {
    let filter = filter_of(&[r"\.txt$"]);
    let visited = run_walk(&scenario_tree(), "/r", &filter, &TagRules::new());
    assert_eq!(visited, vec!["root", "root/sub", "root/sub/CACHEDIR.TAG"]);
}

#[test]
fn unreadable_entry_is_skipped() {
    let mut tree = scenario_tree();
    tree.remove(&b("/r/sub/b.txt"));
    let visited = run_walk(&tree, "/r", &PatternFilter::new(), &TagRules::new());
    assert_eq!(
        visited,
        vec!["root", "root/a.txt", "root/sub", "root/sub/CACHEDIR.TAG", "root/sub/c.txt"]
    );
}

#[test]
fn invalid_pattern_is_rejected() {
    assert_eq!(ExclusionRule::new("(").err(), Some(PatternError::Invalid));
    assert!(ExclusionRule::new("a+").is_ok());
}

#[test]
fn filter_matches_raw_bytes() {
    let filter = filter_of(&["cache", r"\.tmp$"]);
    assert!(filter.is_excluded(b"/home/x/.cache/y"));
    assert!(filter.is_excluded(b"/home/x/f.tmp"));
    assert!(!filter.is_excluded(b"/home/x/f.tmpl"));
    assert!(!filter.is_excluded(b"/home/x/CACHE"));
    assert!(!PatternFilter::new().is_excluded(b"/anything"));
}

#[test]
fn rule_match_is_search_anywhere() {
    let rule = ExclusionRule::new("b+").unwrap();
    assert!(rule.is_match(b"abbc"));
    assert!(!rule.is_match(b"ac"));
}

#[test]
fn first_marker_wins_and_stops_the_scan() {
    let tags = tag_rules(&[("KEEP", TagKeepMode::TagOnly), ("DROP", TagKeepMode::Nothing)]);
    let kept = select_contents(&tags, vec![b("x"), b("KEEP"), b("y"), b("DROP")]);
    assert_eq!(kept, Some(vec![b("KEEP")]));
    let dropped = select_contents(&tags, vec![b("x"), b("DROP"), b("KEEP")]);
    assert_eq!(dropped, None);
}

#[test]
fn listing_without_marker_is_kept_whole() {
    let tags = tag_rules(&[("KEEP", TagKeepMode::TagOnly)]);
    assert_eq!(select_contents(&tags, vec![b("x"), b("y")]), Some(vec![b("x"), b("y")]));
    assert_eq!(select_contents(&tags, vec![]), Some(vec![]));
}

#[test]
fn earlier_rule_of_same_name_decides() {
    let tags = tag_rules(&[("T", TagKeepMode::All), ("T", TagKeepMode::Nothing)]);
    assert_eq!(tags.mode_of(b"T"), Some(TagKeepMode::All));
    assert_eq!(tags.mode_of(b"U"), None);
}

#[test]
fn join_adds_one_separator() {
    assert_eq!(join(b"/root", b"a"), b("/root/a"));
    assert_eq!(join(b"/", b"a"), b("/a"));
    assert_eq!(join(b"", b"a"), b("a"));
}

#[test]
fn scan_plan_for_each_probe() {
    let tags = TagRules::new();
    let entry = WalkEntry { path: b("/r/d"), name: b("d") };
    let skipped = scan_path(&tags, &entry, Probe::Skipped);
    assert!(!skipped.visit && skipped.children.is_empty());
    let leaf = scan_path(&tags, &entry, Probe::Leaf);
    assert!(leaf.visit && leaf.children.is_empty());
    let dir = scan_path(&tags, &entry, Probe::Dir(vec![b("x"), b("y")]));
    assert!(dir.visit);
    let paths: Vec<Vec<u8>> = dir.children.iter().map(|c| c.path.clone()).collect();
    let names: Vec<Vec<u8>> = dir.children.iter().map(|c| c.name.clone()).collect();
    assert_eq!(paths, vec![b("/r/d/x"), b("/r/d/y")]);
    assert_eq!(names, vec![b("d/x"), b("d/y")]);
}

#[test]
fn walker_is_done_after_root_file() {
    let mut walker = Walker::new(b("/f"), b("f"));
    assert!(!walker.is_done());
    let e = walker.next_entry(&PatternFilter::new()).unwrap();
    assert_eq!(e.path, b("/f"));
    assert!(walker.is_done());
    assert!(walker.next_entry(&PatternFilter::new()).is_none());
}

#[test]
fn links_are_entered_only_when_followed() {
    assert!(descends_into(true, false, false));
    assert!(!descends_into(true, true, false));
    assert!(descends_into(true, true, true));
    assert!(!descends_into(false, false, true));
}

#[test]
fn scenario_ignore_all_answer_silences_second_failure() {
    let mut tree = scenario_tree();
    tree.remove(&b("/r/a.txt"));
    tree.remove(&b("/r/sub/c.txt"));
    let mut policy = FailurePolicy::new();
    let mut prompts = 0;
    let mut visited = Vec::new();
    let mut walker = Walker::new(b("/r"), b("root"));
    while let Some(entry) = walker.next_entry(&PatternFilter::new()) {
        let probe = match tree.get(&entry.path) {
            None => {
                let skip = if policy.skips_silently() {
                    true
                } else {
                    prompts += 1;
                    policy.failed_access("a\n")
                };
                assert!(skip);
                Probe::Skipped
            }
            Some(None) => Probe::Leaf,
            Some(Some(listing)) => Probe::Dir(listing.iter().map(|n| b(n)).collect()),
        };
        if walker.expand(&TagRules::new(), &entry, probe) {
            visited.push(String::from_utf8(entry.name.clone()).unwrap());
        }
    }
    assert_eq!(prompts, 1);
    assert_eq!(visited, vec!["root", "root/sub", "root/sub/b.txt", "root/sub/CACHEDIR.TAG"]);
}
