use signage_pricing::folder::{build_tree, Folder, Folderable, TreeNode};
use signage_pricing::picto::{search, suggestion_from, Picto};
use signage_pricing::shape::Shape;
use signage_pricing::template::Template;

fn picto(id: i32, folder_id: Option<i32>, tags: &str) -> Picto {
    Picto { id, folder_id, tags: tags.to_string(), url: format!("/p/{}.svg", id) }
}

fn folder(id: i32, parent_id: Option<i32>) -> Folder {
    Folder { id, parent_id, name: format!("f{}", id), category: "picto".to_string() }
}

fn render(nodes: &[TreeNode]) -> String {
    let parts: Vec<String> = nodes
        .iter()
        .map(|n| match n {
            TreeNode::Folder(f) => format!("F{}[{}]", f.inner, render(&f.children)),
            TreeNode::Item(i) => format!("I{}", i),
        })
        .collect();
    parts.join(",")
}

#[test]
fn search_lists_pictos_holding_pattern() {
    let ps = vec![picto(1, None, "arrow,exit"), picto(2, None, "fire,extinguisher"), picto(3, None, "exit door")];
    let r = search(&ps, "exit");
    assert_eq!(r.pictos, vec![0, 2]);
    assert_eq!(r.suggestion, None);
    let r = search(&ps, "fir");
    assert_eq!(r.pictos, vec![1]);
    assert_eq!(r.suggestion, None);
}

#[test]
fn search_suggests_tag_one_edit_away() {
    let ps = vec![picto(1, None, "arrow,exit"), picto(2, None, "fire,extinguisher")];
    let r = search(&ps, "arow");
    assert!(r.pictos.is_empty());
    assert_eq!(r.suggestion, Some("arrow".to_string()));
    let r = search(&ps, "eixt");
    assert_eq!(r.suggestion, Some("exit".to_string()));
}

#[test]
fn search_suggests_nothing_when_all_tags_are_far() {
    let ps = vec![picto(1, None, "arrow,exit"), picto(2, None, "fire")];
    let r = search(&ps, "zzzz");
    assert!(r.pictos.is_empty());
    assert_eq!(r.suggestion, None);
    assert_eq!(search(&Vec::new(), "a").suggestion, None);
}

#[test]
fn search_tie_keeps_first_tag() {
    let ps = vec![picto(1, None, "bat,cap")];
    assert_eq!(search(&ps, "cot").suggestion, None);
    assert_eq!(search(&ps, "cat").suggestion, Some("bat".to_string()));
}

#[test]
fn search_closest_empty_tag_suggests_nothing() {
    let ps = vec![picto(1, None, ",ab")];
    assert_eq!(search(&ps, "x").suggestion, None);
    let ps = vec![picto(1, None, "ab,")];
    assert_eq!(search(&ps, "x").suggestion, None);
}

#[test]
fn suggestion_from_scores() {
    let tags = vec!["a".to_string(), "b".to_string()];
    assert_eq!(suggestion_from(&tags, &vec![3, 1]), Some("b".to_string()));
    assert_eq!(suggestion_from(&tags, &vec![1, 1]), Some("a".to_string()));
    assert_eq!(suggestion_from(&tags, &vec![1, 0]), Some("b".to_string()));
    assert_eq!(suggestion_from(&tags, &vec![2, 2]), None);
    let tags = vec!["".to_string(), "b".to_string()];
    assert_eq!(suggestion_from(&tags, &vec![0, 1]), None);
}

#[test]
fn tree_lists_subfolders_then_entries() {
    let folders = vec![folder(1, None), folder(2, Some(1)), folder(3, None)];
    let items = vec![picto(10, None, "a"), picto(11, Some(1), "b"), picto(12, Some(2), "c"), picto(13, Some(3), "d")];
    let tree = build_tree(&folders, &items);
    assert_eq!(render(&tree), "F0[F1[I2],I1],F2[I3],I0");
}

#[test]
fn tree_empty_inputs() {
    let tree = build_tree::<Picto>(&Vec::new(), &Vec::new());
    assert!(tree.is_empty());
    let tree = build_tree(&Vec::new(), &vec![picto(1, Some(4), "x"), picto(2, None, "y")]);
    assert_eq!(render(&tree), "I1");
}

#[test]
fn tree_skips_folders_unreachable_from_top() {
    let folders = vec![folder(1, Some(2)), folder(2, Some(1)), folder(3, None)];
    let items = vec![picto(1, Some(1), "x")];
    assert_eq!(render(&build_tree(&folders, &items)), "F2[]");
}

#[test]
fn tree_stops_on_a_folder_that_is_its_own_parent() {
    let folders = vec![folder(1, None), folder(1, Some(1))];
    let tree = build_tree::<Picto>(&folders, &Vec::new());
    assert_eq!(render(&tree), "F0[F1[F1[]]]");
}

#[test]
fn tree_of_shapes_and_templates() {
    let folders = vec![folder(5, None)];
    let shapes = vec![
        Shape { id: 1, folder_id: Some(5), tags: "round".to_string(), url: "/s/1".to_string() },
        Shape { id: 2, folder_id: None, tags: "square".to_string(), url: "/s/2".to_string() },
    ];
    assert_eq!(shapes[0].folder_id(), Some(5));
    assert_eq!(render(&build_tree(&folders, &shapes)), "F0[I0],I1");
    let templates = vec![Template {
        id: 1,
        folder_id: Some(5),
        name: "t".to_string(),
        tags: String::new(),
        preview_url: None,
        config: None,
    }];
    assert_eq!(templates[0].folder_id(), Some(5));
    assert_eq!(render(&build_tree(&folders, &templates)), "F0[I0]");
}
