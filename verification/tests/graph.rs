use gitamicus::{generate_graph, CommitRecord};

fn commit(id: &str, summary: &str, author: &str, timestamp: &str, parents: &[&str]) -> CommitRecord {
    CommitRecord {
        id: id.to_string(),
        summary: summary.to_string(),
        author: author.to_string(),
        timestamp: timestamp.to_string(),
        parent_ids: parents.iter().map(|p| p.to_string()).collect(),
    }
}

#[test]
fn test_empty_commits() {
    let commits = vec![];
    let nodes = generate_graph(&commits);
    assert_eq!(nodes.len(), 0);
}

#[test]
fn test_single_commit() {
    let commits = vec![commit("abc123", "Initial commit", "Author", "2024-01-01", &[])];
    let nodes = generate_graph(&commits);
    assert_eq!(nodes.len(), 1);
    assert_eq!(nodes[0].id, "abc123");
    assert_eq!(nodes[0].connectors.len(), 0); // No parents, no paths
}

#[test]
fn test_linear_history() {
    let commits = vec![
        commit("commit3", "Third", "Author", "2024-01-03", &["commit2"]),
        commit("commit2", "Second", "Author", "2024-01-02", &["commit1"]),
        commit("commit1", "First", "Author", "2024-01-01", &[]),
    ];
    let nodes = generate_graph(&commits);
    assert_eq!(nodes.len(), 3);
    // All commits should be in the same lane
    assert_eq!(nodes[0].color, nodes[1].color);
    assert_eq!(nodes[1].color, nodes[2].color);
}

#[test]
fn test_branch_split() {
    let commits = vec![
        commit("commit3", "Branch commit", "Author", "2024-01-03", &["commit1"]),
        commit("commit2", "Main commit", "Author", "2024-01-02", &["commit1"]),
        commit("commit1", "Initial", "Author", "2024-01-01", &[]),
    ];
    let nodes = generate_graph(&commits);
    assert_eq!(nodes.len(), 3);
    // Branches should have different colors
    assert_ne!(nodes[0].color, nodes[1].color);
}

#[test]
fn test_merge_commit() {
    let commits = vec![
        commit("merge", "Merge", "Author", "2024-01-04", &["commit2", "commit3"]),
        commit("commit3", "Branch", "Author", "2024-01-03", &["commit1"]),
        commit("commit2", "Main", "Author", "2024-01-02", &["commit1"]),
        commit("commit1", "Initial", "Author", "2024-01-01", &[]),
    ];
    let nodes = generate_graph(&commits);
    assert_eq!(nodes.len(), 4);
    // Merge commit should have two paths
    assert_eq!(nodes[0].connectors.len(), 2);
}

#[test]
fn test_rows_keep_input_order() {
    let commits = vec![
        commit("b", "Second", "Author", "2024-01-02", &["a"]),
        commit("a", "First", "Author", "2024-01-01", &[]),
    ];
    let nodes = generate_graph(&commits);
    assert_eq!(nodes.len(), 2);
    assert_eq!(nodes[0].id, "b");
    assert_eq!(nodes[1].id, "a");
}

#[test]
fn test_single_commit_geometry() {
    let commits = vec![commit("abc123", "Initial commit", "Author", "2024-01-01", &[])];
    let nodes = generate_graph(&commits);
    assert_eq!(nodes[0].lane, 0);
    assert_eq!(nodes[0].color, 0);
    assert_eq!(nodes[0].center_x, 100);
    assert_eq!(nodes[0].center_y, 160);
    assert_eq!(nodes[0].radius, 65);
}

#[test]
fn test_linear_history_lanes_and_paths() {
    let commits = vec![
        commit("commit3", "Third", "Author", "2024-01-03", &["commit2"]),
        commit("commit2", "Second", "Author", "2024-01-02", &["commit1"]),
        commit("commit1", "First", "Author", "2024-01-01", &[]),
    ];
    let nodes = generate_graph(&commits);
    // One lane, one color, N-1 straight connectors
    assert_eq!(nodes[0].lane, 0);
    assert_eq!(nodes[1].lane, 0);
    assert_eq!(nodes[2].lane, 0);
    assert_eq!(nodes[0].color, 0);
    assert_eq!(nodes[0].connectors.len(), 1);
    assert_eq!(nodes[1].connectors.len(), 1);
    assert_eq!(nodes[2].connectors.len(), 0);
    assert_eq!(nodes[0].connectors[0].path_geometry, "M 100 160 L 100 480");
    assert_eq!(nodes[1].connectors[0].path_geometry, "M 100 480 L 100 800");
    assert_eq!(nodes[0].connectors[0].color, 0);
}

#[test]
fn test_branch_split_lanes_and_curve() {
    let commits = vec![
        commit("commit3", "Branch commit", "Author", "2024-01-03", &["commit1"]),
        commit("commit2", "Main commit", "Author", "2024-01-02", &["commit1"]),
        commit("commit1", "Initial", "Author", "2024-01-01", &[]),
    ];
    let nodes = generate_graph(&commits);
    // The two children sit on distinct lanes
    assert_eq!(nodes[0].lane, 1);
    assert_eq!(nodes[1].lane, 0);
    assert_eq!(nodes[2].lane, 0);
    assert_eq!(nodes[0].color, 1);
    assert_eq!(nodes[1].color, 0);
    // The lane change draws a quadratic curve towards the parent
    assert_eq!(nodes[0].connectors[0].path_geometry, "M 300 160 Q 220 416, 100 800");
    // The parent's branch color is the connector's color
    assert_eq!(nodes[0].connectors[0].color, 0);
}

#[test]
fn test_merge_connector_colors_and_lane_release() {
    let commits = vec![
        commit("newer", "Newer work", "Author", "2024-01-05", &[]),
        commit("merge", "Merge", "Author", "2024-01-04", &["commit2", "commit3"]),
        commit("commit3", "Branch", "Author", "2024-01-03", &["commit1"]),
        commit("commit2", "Main", "Author", "2024-01-02", &["commit1"]),
        commit("commit1", "Initial", "Author", "2024-01-01", &[]),
    ];
    let nodes = generate_graph(&commits);
    // The merge keeps its first parent's lane and color
    assert_eq!(nodes[1].lane, 0);
    assert_eq!(nodes[1].color, 0);
    // Its connectors carry each parent branch's color
    assert_eq!(nodes[1].connectors.len(), 2);
    assert_eq!(nodes[1].connectors[0].color, 0);
    assert_eq!(nodes[1].connectors[1].color, 1);
    // The second parent's lane was released and is reused by the
    // unrelated newer commit
    assert_eq!(nodes[2].lane, 1);
    assert_eq!(nodes[0].lane, 1);
    assert_eq!(nodes[0].color, 2);
}

#[test]
fn test_absent_parent_draws_no_connector() {
    let commits = vec![commit("tip", "Shallow tip", "Author", "2024-01-01", &["missing"])];
    let nodes = generate_graph(&commits);
    assert_eq!(nodes.len(), 1);
    assert_eq!(nodes[0].connectors.len(), 0);
    // The unresolvable parent does not disturb lane or color
    assert_eq!(nodes[0].lane, 0);
    assert_eq!(nodes[0].color, 0);
}

#[test]
fn test_self_parent_skipped() {
    let commits = vec![commit("loop1", "Odd row", "Author", "2024-01-01", &["loop1"])];
    let nodes = generate_graph(&commits);
    assert_eq!(nodes.len(), 1);
    assert_eq!(nodes[0].connectors.len(), 0);
}

#[test]
fn test_duplicate_ids_degrade_gracefully() {
    let commits = vec![
        commit("dup", "One", "Author", "2024-01-02", &[]),
        commit("dup", "Two", "Author", "2024-01-01", &[]),
    ];
    let nodes = generate_graph(&commits);
    assert_eq!(nodes.len(), 2);
    assert_eq!(nodes[0].id, "dup");
    assert_eq!(nodes[1].id, "dup");
}

#[test]
fn test_palette_wraps_around() {
    let mut commits = Vec::new();
    for i in 0..9 {
        let id = format!("root{}", i);
        commits.push(CommitRecord {
            id,
            summary: "Root".to_string(),
            author: "Author".to_string(),
            timestamp: "2024-01-01".to_string(),
            parent_ids: Vec::new(),
        });
    }
    let nodes = generate_graph(&commits);
    assert_eq!(nodes.len(), 9);
    // Colors run 0..7 from the oldest row up, then wrap
    assert_eq!(nodes[8].color, 0);
    assert_eq!(nodes[1].color, 7);
    assert_eq!(nodes[0].color, 0);
    // Roots never share a lane: nothing releases their tracks
    assert_eq!(nodes[8].lane, 0);
    assert_eq!(nodes[0].lane, 8);
}
