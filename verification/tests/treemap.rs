use frostscan::model::scan_node::{ScanNode, ScanNodeKind};
use frostscan::ui::treemap::{hover_lines, plan_level, DisplayNode, TreemapStrings, TreemapTile, TreemapTileKind};

fn strings() -> TreemapStrings {
    TreemapStrings {
        others_label: "Others".to_string(),
        folder_label: "Folder".to_string(),
        file_label: "File".to_string(),
        group_label: "Group".to_string(),
        level_label: "level".to_string(),
        partial_label: "Partial scan".to_string(),
        pending_label: "Pending scan".to_string(),
    }
}

fn file(name: &str, size: u64) -> ScanNode {
    ScanNode {
        path: name.to_string(),
        name: name.to_string(),
        kind: ScanNodeKind::File,
        size,
        partial: false,
        pending: false,
        children: Vec::new(),
    }
}

fn dir(name: &str, size: u64, children: Vec<ScanNode>) -> ScanNode {
    ScanNode {
        path: name.to_string(),
        name: name.to_string(),
        kind: ScanNodeKind::Directory,
        size,
        partial: false,
        pending: false,
        children,
    }
}

#[test]
fn tracks_hidden_items_when_level_is_dense() {
    let root = dir("root", 500, (0..20).map(|index| file(&format!("item-{index}.bin"), 100 - index)).collect());

    let plan = plan_level(&root.children, 0, &strings());
    assert!(plan.hidden_count > 0);
}

#[test]
fn dense_level_groups_the_smallest_children() {
    let children: Vec<ScanNode> = (0..20).map(|index| file(&format!("item-{index}.bin"), 100 - index)).collect();
    let plan = plan_level(&children, 0, &strings());
    assert_eq!(plan.hidden_count, 10);
    assert_eq!(plan.tiles.len(), 11);
    assert_eq!(plan.tiles[0].label, "item-0.bin");
    assert_eq!(plan.tiles[9].label, "item-9.bin");
    let others = &plan.tiles[10];
    assert_eq!(others.label, "Others");
    assert_eq!(others.kind, TreemapTileKind::Mixed);
    assert_eq!(others.size, (10..20).map(|i| 100 - i).sum::<u64>());
    assert_eq!(plan.node_index[10], None);
    let tiles_total: u64 = plan.tiles.iter().map(|t| t.size).sum();
    assert_eq!(tiles_total, plan.total_size);
}

#[test]
fn empty_children_are_left_out_and_ties_go_by_name() {
    let children = vec![
        file("zero", 0),
        file("Beta", 50),
        dir("src", 200, vec![file("main.rs", 120), file("lib.rs", 80)]),
        file("alpha", 50),
    ];
    let plan = plan_level(&children, 1, &strings());
    let labels: Vec<_> = plan.tiles.iter().map(|t| t.label.as_str()).collect();
    assert_eq!(labels, vec!["src", "alpha", "Beta"]);
    assert_eq!(plan.node_index, vec![Some(2), Some(3), Some(1)]);
    assert_eq!(plan.tiles[0].path.as_deref(), Some("src"));
    assert_eq!(plan.tiles[0].kind, TreemapTileKind::Directory);
    assert_eq!(plan.tiles[1].path, None);
    assert_eq!(plan.tiles[0].depth, 1);
    assert_eq!(plan.total_size, 300);
    assert_eq!(plan.hidden_count, 0);
    let nested = plan_level(&children[2].children, 2, &strings());
    assert!(nested.tiles.iter().any(|t| t.label == "main.rs"));
}

#[test]
fn level_without_sizes_is_empty() {
    let plan = plan_level(&vec![file("a", 0), dir("b", 0, Vec::new())], 0, &strings());
    assert!(plan.tiles.is_empty());
    assert_eq!(plan.hidden_count, 0);
}

#[test]
fn display_nodes_describe_their_tiles() {
    let node = dir("docs", 10, Vec::new());
    let shown = DisplayNode::Node(&node);
    assert_eq!(shown.label(), "docs");
    assert_eq!(shown.path().as_deref(), Some("docs"));
    assert_eq!(shown.kind(), TreemapTileKind::Directory);
    let others = DisplayNode::Others { label: "Others", size: 7, partial: true };
    assert_eq!(others.label(), "Others");
    assert_eq!(others.path(), None);
    assert_eq!(others.size(), 7);
    assert!(others.partial());
    assert!(!others.pending());
}

#[test]
fn hover_lines_describe_a_tile() {
    let tile = TreemapTile {
        label: "movies".to_string(),
        path: Some("/m".to_string()),
        size: 1536,
        kind: TreemapTileKind::Directory,
        partial: true,
        pending: true,
        depth: 1,
    };
    let lines = hover_lines(&tile, &strings());
    assert_eq!(lines, vec!["movies", "1.5 KB", "Folder  •  level 2", "Partial scan"]);
    let tile = TreemapTile { partial: false, kind: TreemapTileKind::Mixed, ..tile };
    let lines = hover_lines(&tile, &strings());
    assert_eq!(lines[2], "Group  •  level 2");
    assert_eq!(lines[3], "Pending scan");
    let tile = TreemapTile { pending: false, ..tile };
    assert_eq!(hover_lines(&tile, &strings()).len(), 3);
}
