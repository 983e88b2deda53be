use content_analyzer::graph::{reach_row, reachable_from, Reachability};

fn can_reach(g: &Vec<Vec<usize>>, from: usize, to: usize) -> bool {
    reach_row(g, from).get(to).copied().unwrap_or(false)
}

#[test]
fn reachability_on_a_chain_with_a_cycle() {
    // 0 -> 1 -> 2 -> 1, 3 isolated, 4 -> 0
    let g: Vec<Vec<usize>> = vec![vec![1], vec![2], vec![1], vec![], vec![0]];
    assert_eq!(reachable_from(&g, &vec![0]), vec![true, true, true, false, false]);
    assert_eq!(reachable_from(&g, &vec![2]), vec![false, true, true, false, false]);
    assert_eq!(reachable_from(&g, &vec![3]), vec![false, false, false, true, false]);
    assert_eq!(reachable_from(&g, &vec![4]), vec![true, true, true, false, true]);
    assert_eq!(reachable_from(&g, &vec![3, 2]), vec![false, true, true, true, false]);
    assert_eq!(reachable_from(&g, &vec![]), vec![false; 5]);
}

#[test]
fn every_node_reaches_itself() {
    let g: Vec<Vec<usize>> = vec![vec![], vec![0]];
    assert!(can_reach(&g, 0, 0));
    assert!(can_reach(&g, 1, 1));
    assert!(can_reach(&g, 1, 0));
    assert!(!can_reach(&g, 0, 1));
}

#[test]
fn successors_and_sources_out_of_range_are_ignored() {
    let g: Vec<Vec<usize>> = vec![vec![7, 1], vec![usize::MAX]];
    assert_eq!(reachable_from(&g, &vec![0, 9]), vec![true, true]);
    assert!(!can_reach(&g, 0, 7));
    assert!(!can_reach(&g, 7, 0));
    assert!(!can_reach(&g, 7, 7));
    let empty: Vec<Vec<usize>> = vec![];
    assert!(reachable_from(&empty, &vec![0]).is_empty());
    assert!(!can_reach(&empty, 0, 0));
}

#[test]
fn repeated_edges_and_sources() {
    let g: Vec<Vec<usize>> = vec![vec![1, 1, 0], vec![2, 2], vec![0]];
    assert_eq!(reachable_from(&g, &vec![1, 1, 1]), vec![true, true, true]);
    assert!(can_reach(&g, 2, 1));
}

#[test]
fn long_chain() {
    let n = 2000;
    let g: Vec<Vec<usize>> = (0..n).map(|i| if i + 1 < n { vec![i + 1] } else { vec![] }).collect();
    assert!(can_reach(&g, 0, n - 1));
    assert!(!can_reach(&g, n - 1, 0));
    assert!(!can_reach(&g, 1, 0));
}

#[test]
fn rows_of_the_reachability_relation() {
    let g: Vec<Vec<usize>> = vec![vec![1], vec![2], vec![1], vec![]];
    assert_eq!(reach_row(&g, 0), vec![true, true, true, false]);
    assert_eq!(reach_row(&g, 1), vec![false, true, true, false]);
    assert_eq!(reach_row(&g, 3), vec![false, false, false, true]);
    assert_eq!(reach_row(&g, 4), vec![false, false, false, false]);
}

#[test]
fn remembered_reachability_answers_like_a_fresh_search() {
    let g: Vec<Vec<usize>> = vec![vec![1, 3], vec![2], vec![0], vec![], vec![4, 9]];
    let mut reach = Reachability::new(&g);
    for round in 0..2 {
        for from in 0..7 {
            for to in 0..7 {
                assert_eq!(reach.reaches(from, to), can_reach(&g, from, to), "{round} {from} {to}");
            }
        }
    }
    assert!(reach.reaches(2, 3));
    assert!(!reach.reaches(3, 2));
    assert!(reach.reaches(4, 4));
    assert!(!reach.reaches(5, 5));
}
