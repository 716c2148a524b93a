use zed_core::project_symbols::{ProjectSymbolsDelegate, StringMatch, Symbol, MAX_MATCHES};

fn symbol(label: &str, filter_start: usize, path: &str) -> Symbol {
    Symbol {
        label: label.to_string(),
        filter_text: label[filter_start..].to_string(),
        filter_start,
        worktree_id: 1,
        path: path.to_string(),
    }
}

fn hit(candidate_id: usize, rank: u64, positions: &[usize]) -> StringMatch {
    StringMatch {
        candidate_id,
        rank,
        positions: positions.to_vec(),
    }
}

fn delegate() -> ProjectSymbolsDelegate {
    let mut delegate = ProjectSymbolsDelegate::new();
    delegate.take_symbols(
        vec![
            symbol("fn uno", 3, "a.rs"),
            symbol("fn dos", 3, "b.rs"),
            symbol("struct tres", 7, "dep/c.rs"),
        ],
        &vec![true, true, false],
    );
    delegate
}

#[test]
fn symbols_of_the_project_are_told_from_others() {
    let delegate = delegate();
    let ids = |candidates: &[zed_core::project_symbols::Candidate]| -> Vec<(usize, String)> {
        candidates
            .iter()
            .map(|candidate| (candidate.id, candidate.text.clone()))
            .collect()
    };
    assert_eq!(
        ids(&delegate.visible_match_candidates),
        vec![(0, "uno".to_string()), (1, "dos".to_string())]
    );
    assert_eq!(ids(&delegate.external_match_candidates), vec![(2, "tres".to_string())]);
    assert_eq!(ProjectSymbolsDelegate::external_limit(30), 70);
    assert_eq!(ProjectSymbolsDelegate::external_limit(MAX_MATCHES + 1), 0);
}

#[test]
fn matches_are_sorted_and_counted_in_the_label() {
    let mut delegate = delegate();
    delegate.set_selected_index(2);
    delegate.filter(
        vec![hit(0, 5, &[0, 2]), hit(1, 5, &[1])],
        vec![hit(2, 9, &[0])],
    );
    let shown: Vec<(usize, Vec<usize>)> = delegate
        .matches
        .iter()
        .map(|hit| (hit.candidate_id, hit.positions.clone()))
        .collect();
    // As good matches go by their text, and those of the project come first.
    assert_eq!(shown, vec![(1, vec![4]), (0, vec![3, 5]), (2, vec![7])]);
    assert_eq!(delegate.selected_index(), 0);
    assert_eq!(delegate.match_count(), 3);
    assert_eq!(delegate.confirm(), Some(1));
    delegate.set_selected_index(7);
    assert_eq!(delegate.confirm(), None);
    assert_eq!(delegate.path_text(2, Some("root"), '/'), "dep/c.rs");
    delegate.set_worktree_count(2);
    assert_eq!(delegate.path_text(2, Some("root"), '/'), "root/dep/c.rs");
    assert_eq!(delegate.path_text(2, Some("root"), '\\'), "root\\dep/c.rs");
    assert_eq!(delegate.path_text(2, None, '/'), "dep/c.rs");
}

#[test]
fn better_matches_come_first() {
    let delegate = delegate();
    let sorted = delegate.sort_matches(vec![hit(1, 1, &[]), hit(0, 9, &[]), hit(2, 5, &[])]);
    let ids: Vec<usize> = sorted.iter().map(|hit| hit.candidate_id).collect();
    assert_eq!(ids, vec![0, 2, 1]);
}
