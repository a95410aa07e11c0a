use just_shield::typosquat::{bundled_popular, osa_distance, similar_popular, similar_popular_lowered};

#[test]
fn transposition_counts_as_one() {
    assert_eq!(osa_distance("aquasecurity", "aquasecurtiy"), 1);
    assert_eq!(osa_distance("actions", "actoins"), 1);
    assert_eq!(osa_distance("same", "same"), 0);
    assert_eq!(osa_distance("checkout", "checkov"), 2);
}

#[test]
fn finds_one_edit_neighbors_but_not_exact_or_distant() {
    let popular = bundled_popular();
    assert_eq!(
        similar_popular("aquasecurtiy/trivy-action", &popular).as_deref(),
        Some("aquasecurity/trivy-action")
    );
    assert_eq!(
        similar_popular("actions/checkoutt", &popular).as_deref(),
        Some("actions/checkout")
    );
    assert_eq!(similar_popular("actions/checkout", &popular), None);
    assert_eq!(similar_popular("mycorp/deploy-tool", &popular), None);
}

#[test]
fn bundled_list_has_no_internal_one_edit_collisions() {
    let popular = bundled_popular();
    for (i, a) in popular.iter().enumerate() {
        for b in popular.iter().skip(i + 1) {
            assert!(osa_distance(a, b) > 1, "목록 내부 충돌: {a} ↔ {b}");
        }
    }
}

#[test]
fn distance_edge_cases() {
    assert_eq!(osa_distance("", "abc"), 3);
    assert_eq!(osa_distance("abc", ""), 3);
    assert_eq!(osa_distance("ab", "ba"), 1);
    assert_eq!(osa_distance("kitten", "sitting"), 3);
    // Case is folded before comparing names.
    assert_eq!(
        similar_popular("Actions/Checkoutt", &bundled_popular()).as_deref(),
        Some("actions/checkout")
    );
}

#[test]
fn distance_is_symmetric() {
    for (a, b) in [("aquasecurity", "aquasecurtiy"), ("checkout", "checkov"), ("", "x"), ("abc", "cab")] {
        assert_eq!(osa_distance(a, b), osa_distance(b, a));
    }
}

#[test]
fn lowered_candidate_is_compared_as_given() {
    let popular = vec!["actions/checkout".to_string(), "docker/login-action".to_string()];
    assert_eq!(similar_popular_lowered("actions/checkout", &popular), None);
    assert_eq!(
        similar_popular_lowered("actions/checkou", &popular).as_deref(),
        Some("actions/checkout")
    );
    assert_eq!(similar_popular_lowered("docker/logni-action", &popular).as_deref(), Some("docker/login-action"));
    // No case folding here: an upper-case name is far from every entry.
    assert_eq!(similar_popular_lowered("ACTIONS/CHECKOUT", &popular), None);
    assert_eq!(similar_popular_lowered("", &popular), None);
}
