use lune_std_roblox::instance::{
    checked_property_names, get_all_properties, get_instance_path, InstanceData,
};
use lune_std_roblox::markdown::instance_to_markdown;
use lune_std_roblox::markup::{render_markdown, Segment};

fn s(text: &str) -> String {
    text.to_string()
}

fn leaf(class_name: &str, name: &str, ancestors: &[&str]) -> InstanceData {
    InstanceData {
        class_name: s(class_name),
        name: s(name),
        ancestors: ancestors.iter().map(|a| s(a)).collect(),
        properties: Vec::new(),
        attributes: Vec::new(),
        tags: Vec::new(),
        children: Vec::new(),
    }
}

fn render(segments: &Vec<Segment>) -> String {
    let numbers: Vec<String> = segments
        .iter()
        .filter_map(|seg| match seg {
            Segment::Number(slot) => Some(format!(
                "{}",
                slot.as_ref()
                    .and_then(|t| t.parse::<f32>().ok())
                    .unwrap_or(0.0)
            )),
            Segment::Text(_) => None,
        })
        .collect();
    render_markdown(segments, &numbers)
}

#[test]
fn path_joins_names_from_the_root() {
    assert_eq!(get_instance_path(&leaf("Part", "Part", &["Workspace", "Game"])), "Game/Workspace/Part");
    assert_eq!(get_instance_path(&leaf("DataModel", "Game", &[])), "Game");
}

#[test]
fn child_path_extends_parent_path() {
    let parent = leaf("Model", "M", &["Workspace", "Game"]);
    let child = leaf("Part", "P", &["M", "Workspace", "Game"]);
    assert_eq!(
        get_instance_path(&child),
        format!("{}/{}", get_instance_path(&parent), "P")
    );
}

#[test]
fn properties_are_collected_and_sorted_by_name() {
    let mut part = leaf("Part", "P", &["Workspace"]);
    part.properties = vec![
        (s("Material"), s("Enum(Enum { value: 256 })")),
        (s("Anchored"), s("Bool(true)")),
        (s("NotChecked"), s("Int32(1)")),
    ];
    part.attributes = vec![(s("Speed"), s("Float64(5.0)"))];
    part.tags = vec![s("a")];
    let props = get_all_properties(&part);
    let expected: Vec<(String, String)> = vec![
        (s("Anchored"), s("Bool(true)")),
        (s("Attribute.Speed"), s("Float64(5.0)")),
        (s("ClassName"), s("Part")),
        (s("Material"), s("256")),
        (s("Name"), s("P")),
        (s("Parent"), s("Workspace")),
        (s("Tags"), s("[\"a\"]")),
    ];
    assert_eq!(props, expected);
}

#[test]
fn orphan_parent_is_nil_and_no_tags_entry() {
    let props = get_all_properties(&leaf("Folder", "F", &[]));
    assert_eq!(
        props,
        vec![
            (s("ClassName"), s("Folder")),
            (s("Name"), s("F")),
            (s("Parent"), s("nil")),
        ]
    );
}

#[test]
fn sort_keeps_order_of_equal_names() {
    let mut node = leaf("Folder", "F", &[]);
    node.attributes = vec![(s("b"), s("2")), (s("a"), s("1"))];
    node.properties = vec![(s("Value"), s("first")), (s("Value"), s("second"))];
    let props = get_all_properties(&node);
    let names: Vec<&str> = props.iter().map(|p| p.0.as_str()).collect();
    assert_eq!(
        names,
        vec!["Attribute.a", "Attribute.b", "ClassName", "Name", "Parent", "Value"]
    );
    assert_eq!(props[5].1, "first");
}

#[test]
fn unique_id_is_formatted_in_properties() {
    let mut node = leaf("Part", "P", &[]);
    node.properties = vec![(
        s("UniqueId"),
        s("UniqueId(UniqueId { index: 1, time: 2, random: 3 })"),
    )];
    let props = get_all_properties(&node);
    assert_eq!(props.last().unwrap(), &(s("UniqueId"), s("index: 1-time: 2-3")));
}

#[test]
fn checked_names_are_listed_in_order() {
    let names = checked_property_names();
    assert_eq!(names.len(), 20);
    assert_eq!(names[0], "Position");
    assert_eq!(names[6], "Material");
    assert_eq!(names[19], "MaxPlayers");
}

#[test]
fn markdown_of_a_small_tree() {
    let mut child = leaf("Part", "Block", &["Game"]);
    child.properties = vec![(s("Size"), s("Vector3(Vector3 { x: 1.0, y: 2.0, z: 3.0 })"))];
    let mut root = leaf("DataModel", "Game", &[]);
    root.children = vec![child];
    let md = render(&instance_to_markdown(&root, 0));
    assert_eq!(
        md,
        "Game (DataModel-Game)\n- ClassName: DataModel\n- Name: Game\n- Parent: nil\n\n\
         Game/Block (Part-Block)\n- ClassName: Part\n- Name: Block\n- Parent: Game\n- Size: \n  - x: 1.0\n  - y: 2.0\n  - z: 3.0 \n\n"
    );
}

#[test]
fn markdown_heading_uses_unique_id() {
    let mut node = leaf("Part", "P", &[]);
    node.properties = vec![(
        s("UniqueId"),
        s("UniqueId(UniqueId { index: 1, time: 2, random: 3 })"),
    )];
    let md = render(&instance_to_markdown(&node, 0));
    assert_eq!(
        md,
        "P (index: 1-time: 2-3)\n- ClassName: Part\n- Name: P\n- Parent: nil\n- UniqueId: index: 1-time: 2-3\n\n"
    );
}

#[test]
fn markdown_children_in_order_depth_first() {
    let mut a = leaf("Folder", "A", &["R"]);
    a.children = vec![leaf("Folder", "A1", &["A", "R"])];
    let b = leaf("Folder", "B", &["R"]);
    let mut root = leaf("Folder", "R", &[]);
    root.children = vec![a, b];
    let md = render(&instance_to_markdown(&root, 0));
    let headings: Vec<&str> = md.lines().filter(|l| l.contains(" (")).collect();
    assert_eq!(
        headings,
        vec!["R (Folder-R)", "R/A (Folder-A)", "R/A/A1 (Folder-A1)", "R/B (Folder-B)"]
    );
}

#[test]
fn render_writes_numbers_in_slot_order() {
    let segments = vec![
        Segment::Text(s("[")),
        Segment::Number(Some(s("1.0"))),
        Segment::Text(s(", ")),
        Segment::Number(None),
        Segment::Text(s("]")),
    ];
    assert_eq!(render_markdown(&segments, &vec![s("one"), s("two")]), "[one, two]");
}

#[test]
fn distinct_attributes_give_strictly_ascending_names() {
    let mut node = leaf("Part", "P", &["Workspace"]);
    node.attributes = vec![(s("Zeta"), s("1")), (s("Alpha"), s("2"))];
    node.properties = vec![(s("Anchored"), s("Bool(true)")), (s("Size"), s("Int32(1)"))];
    node.tags = vec![s("t")];
    let props = get_all_properties(&node);
    for pair in props.windows(2) {
        assert!(pair[0].0 < pair[1].0);
    }
    assert_eq!(props.len(), 8);
}
