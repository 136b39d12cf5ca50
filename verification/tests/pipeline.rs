use lumo_icons::generate::{generate, scan_canvas, scan_icon_names, scan_styles, SourceFile,
    StyleDir};

fn file(name: &str, content: &str) -> SourceFile {
    SourceFile { name: name.to_string(), content: Some(content.to_string()) }
}

fn star_tree() -> Vec<StyleDir> {
    vec![
        StyleDir {
            name: "core".to_string(),
            files: vec![file(
                "star.svg",
                "<svg viewBox=\"0 0 24 24\"><path fill=\"#000000\" d=\"M1 2z\"/></svg>",
            )],
        },
        StyleDir {
            name: "bold".to_string(),
            files: vec![file(
                "star.svg",
                "<svg viewBox=\"0 0 32 32\"><path d=\"M3 4z\"/></svg>",
            )],
        },
    ]
}

#[test]
fn end_to_end_star_example() {
    let out = generate("{}", &star_tree()).expect("generation succeeds");

    assert_eq!(out.styles, vec!["bold".to_string(), "core".to_string()]);
    assert_eq!(out.canvas.mant, 32);
    assert_eq!(out.canvas.frac, 0);
    assert_eq!(out.categories, vec!["uncategorized".to_string()]);

    assert_eq!(out.icons.len(), 1);
    let star = &out.icons[0];
    assert_eq!(star.name, "star");
    assert_eq!(star.categories, vec!["uncategorized".to_string()]);
    assert_eq!(star.fragments.len(), 2);
    assert_eq!(star.fragments[0], "<path d=\"M3 4z\"/>");
    assert_eq!(
        star.fragments[1],
        "<g transform=\"scale(1.3333333)\"><path fill=\"currentColor\" d=\"M1 2z\"/></g>"
    );

    assert_eq!(out.icon_files.len(), 1);
    assert_eq!(out.icon_files[0].path, "star.rs");
    assert_eq!(
        out.icon_files[0].text,
        "pub const STAR: &crate::IconStyleData = &crate::IconStyleData([\"<path d=\\\"M3 4z\\\"/>\", \"<g transform=\\\"scale(1.3333333)\\\"><path fill=\\\"currentColor\\\" d=\\\"M1 2z\\\"/></g>\"]);\n"
    );

    assert_eq!(
        out.mod_index,
        "#[cfg(feature = \"uncategorized\")]\n#[doc(hidden)]\nmod star;\n#[cfg(feature = \"uncategorized\")]\n#[doc(hidden)]\npub use star::*;\n"
    );
    assert!(out.lib_src.contains("viewBox=\"0 0 32 32\""));
    assert!(out.manifest.contains("uncategorized = []\n"));
}

#[test]
fn generation_twice_is_byte_identical() {
    let doc = "{\"star\":{\"sets\":[\"ui\",\"core\"]}}";
    let a = generate(doc, &star_tree()).expect("first run");
    let b = generate(doc, &star_tree()).expect("second run");
    assert_eq!(a.mod_index, b.mod_index);
    assert_eq!(a.lib_src, b.lib_src);
    assert_eq!(a.manifest, b.manifest);
    assert_eq!(a.styles, b.styles);
    assert_eq!(a.categories, b.categories);
    assert_eq!(a.icon_files.len(), b.icon_files.len());
    for i in 0..a.icon_files.len() {
        assert_eq!(a.icon_files[i].path, b.icon_files[i].path);
        assert_eq!(a.icon_files[i].text, b.icon_files[i].text);
    }
}

#[test]
fn fragment_array_length_equals_style_count() {
    let tree = vec![
        StyleDir {
            name: "core".to_string(),
            files: vec![file("lone.svg", "<svg viewBox=\"0 0 10 10\"><path/></svg>")],
        },
        StyleDir { name: "bold".to_string(), files: vec![] },
    ];
    let out = generate("{}", &tree).expect("generation succeeds");
    assert_eq!(out.styles.len(), 2);
    for icon in &out.icons {
        assert_eq!(icon.fragments.len(), out.styles.len());
    }
}

#[test]
fn missing_source_file_yields_empty_fragment_and_generation_succeeds() {
    let tree = vec![
        StyleDir {
            name: "core".to_string(),
            files: vec![file("lone.svg", "<svg viewBox=\"0 0 10 10\"><path/></svg>")],
        },
        StyleDir { name: "bold".to_string(), files: vec![] },
    ];
    let out = generate("{}", &tree).expect("generation succeeds");
    let lone = &out.icons[0];
    assert_eq!(lone.name, "lone");
    assert_eq!(lone.fragments[0], "");
    assert_eq!(lone.fragments[1], "<path/>");
}

#[test]
fn unreadable_source_file_counts_as_absent() {
    let tree = vec![StyleDir {
        name: "core".to_string(),
        files: vec![SourceFile { name: "x.svg".to_string(), content: None }],
    }];
    let out = generate("{}", &tree).expect("generation succeeds");
    assert_eq!(out.icons.len(), 1);
    assert_eq!(out.icons[0].fragments[0], "");
}

#[test]
fn malformed_taxonomy_aborts_generation() {
    assert!(generate("oops", &star_tree()).is_none());
    assert!(generate("[]", &star_tree()).is_none());
}

#[test]
fn taxonomy_gates_icon_behind_any_of_its_categories() {
    let doc = "{\"star\":{\"sets\":[\"ui\",\"core\"]}}";
    let out = generate(doc, &star_tree()).expect("generation succeeds");
    assert_eq!(
        out.icons[0].categories,
        vec!["ui".to_string(), "core".to_string()]
    );
    assert!(out
        .mod_index
        .contains("#[cfg(any(feature = \"ui\", feature = \"core\"))]"));
    assert_eq!(
        out.categories,
        vec![
            "core".to_string(),
            "ui".to_string(),
            "uncategorized".to_string()
        ]
    );
}

#[test]
fn style_directories_are_sorted_for_indexing() {
    let tree = vec![
        StyleDir { name: "ui".to_string(), files: vec![] },
        StyleDir { name: "core".to_string(), files: vec![] },
        StyleDir { name: "flags".to_string(), files: vec![] },
    ];
    let styles = scan_styles(&tree);
    assert_eq!(
        styles,
        vec!["core".to_string(), "flags".to_string(), "ui".to_string()]
    );
}

#[test]
fn icon_names_are_the_union_of_base_names() {
    let tree = vec![
        StyleDir {
            name: "core".to_string(),
            files: vec![file("b.svg", ""), file("a.svg", ""), file("notes.txt", "")],
        },
        StyleDir {
            name: "bold".to_string(),
            files: vec![file("a.svg", ""), file("c.svg", "")],
        },
    ];
    let names = scan_icon_names(&tree);
    assert_eq!(
        names,
        vec!["a".to_string(), "b".to_string(), "c".to_string()]
    );
}

#[test]
fn canvas_defaults_to_baseline_when_nothing_parses() {
    let tree = vec![StyleDir {
        name: "core".to_string(),
        files: vec![file("a.svg", "<svg><path/></svg>")],
    }];
    let c = scan_canvas(&tree);
    assert_eq!(c.mant, 256);
    assert_eq!(c.frac, 0);
}

#[test]
fn canvas_ignores_degenerate_view_boxes() {
    let tree = vec![StyleDir {
        name: "core".to_string(),
        files: vec![
            file("a.svg", "<svg viewBox=\"0 0 1.2.3 999\"><path/></svg>"),
            file("b.svg", "<svg viewBox=\"0 0 24 24\"><path/></svg>"),
        ],
    }];
    let c = scan_canvas(&tree);
    assert_eq!(c.mant, 24);
    assert_eq!(c.frac, 0);
}

#[test]
fn canvas_reads_only_discovered_svg_files() {
    let tree = vec![StyleDir {
        name: "core".to_string(),
        files: vec![
            file("notes.txt", "<svg viewBox=\"0 0 999 999\"><path/></svg>"),
            file("a.svg", "<svg viewBox=\"0 0 24 24\"><path/></svg>"),
        ],
    }];
    let c = scan_canvas(&tree);
    assert_eq!(c.mant, 24);
    assert_eq!(c.frac, 0);
}

#[test]
fn canvas_is_the_largest_observed_dimension() {
    let tree = vec![
        StyleDir {
            name: "core".to_string(),
            files: vec![file("a.svg", "<svg viewBox=\"0 0 24 48\"><path/></svg>")],
        },
        StyleDir {
            name: "bold".to_string(),
            files: vec![file("b.svg", "<svg viewBox=\"0 0 512 16\"><path/></svg>")],
        },
    ];
    let c = scan_canvas(&tree);
    assert_eq!(c.mant, 512);
    assert_eq!(c.frac, 0);
}
