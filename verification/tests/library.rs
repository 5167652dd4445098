use microflow::python_library::{PythonLibrary, PythonScript};

fn concat_lines(lines: &[&str]) -> String {
    lines.concat()
}

fn script(path: &str, category: &str) -> PythonScript {
    PythonScript {
        name: path.to_string(),
        description: String::new(),
        relative_path: path.to_string(),
        category: category.to_string(),
    }
}

#[test]
fn header_entries_are_read_from_the_top() {
    let content = concat_lines(&[
        "#!/usr/bin/env python\n",
        "  # @name Resize image  \n",
        "# @description Scales an image\r\n",
        "# @name second\n",
        "print(1)\n",
    ]);
    let content = content.as_str();
    assert_eq!(
        PythonLibrary::parse_meta(content, "name"),
        Some("Resize image".to_string())
    );
    assert_eq!(
        PythonLibrary::parse_meta(content, "description"),
        Some("Scales an image".to_string())
    );
    assert_eq!(PythonLibrary::parse_meta(content, "author"), None);
    // The tag ends with a blank.
    assert_eq!(PythonLibrary::parse_meta("# @name", "name"), None);
    assert_eq!(PythonLibrary::parse_meta("# @namex y", "name"), None);
    assert_eq!(
        PythonLibrary::parse_meta("# @name  x", "name"),
        Some(" x".to_string())
    );
    assert_eq!(PythonLibrary::parse_meta("", "name"), None);
}

#[test]
fn only_the_first_thirty_lines_are_read() {
    let mut late = "\n".repeat(30);
    late.push_str("# @name late\n");
    assert_eq!(PythonLibrary::parse_meta(&late, "name"), None);
    let mut last = "\n".repeat(29);
    last.push_str("# @name last\n");
    assert_eq!(
        PythonLibrary::parse_meta(&last, "name"),
        Some("last".to_string())
    );
}

#[test]
fn script_falls_back_to_its_file_name() {
    let s = PythonLibrary::describe(
        "print(1)\n",
        "tools/a.py".to_string(),
        "tools".to_string(),
        "a".to_string(),
    );
    assert_eq!(
        s,
        PythonScript {
            name: "a".to_string(),
            description: "".to_string(),
            relative_path: "tools/a.py".to_string(),
            category: "tools".to_string(),
        }
    );
    let s = PythonLibrary::describe(
        "# @description d\n# @name n\n",
        "b.py".to_string(),
        "".to_string(),
        "b".to_string(),
    );
    assert_eq!(s.name, "n");
    assert_eq!(s.description, "d");
}

#[test]
fn scripts_are_grouped_by_category() {
    let mut lib = PythonLibrary::new("/home/u/.microflow/python_library");
    assert_eq!(lib.root_path(), "/home/u/.microflow/python_library");
    assert!(lib.get_by_category().is_empty());
    lib.add_script(script("img/a.py", "img"));
    lib.add_script(script("text/b.py", "text"));
    lib.add_script(script("img/c.py", "img"));
    lib.add_script(script("d.py", ""));
    assert_eq!(lib.len(), 4);
    let groups = lib.get_by_category();
    let shape: Vec<(String, Vec<String>)> = groups
        .iter()
        .map(|(c, g)| (c.clone(), g.iter().map(|s| s.relative_path.clone()).collect()))
        .collect();
    assert_eq!(
        shape,
        vec![
            (
                "img".to_string(),
                vec!["img/a.py".to_string(), "img/c.py".to_string()]
            ),
            ("text".to_string(), vec!["text/b.py".to_string()]),
            ("".to_string(), vec!["d.py".to_string()]),
        ]
    );
}

#[test]
fn script_with_a_known_path_replaces_the_old_one() {
    let mut lib = PythonLibrary::new("lib");
    lib.add_script(script("a.py", "x"));
    lib.add_script(script("b.py", "x"));
    lib.add_script(script("a.py", "y"));
    assert_eq!(lib.len(), 2);
    let groups = lib.get_by_category();
    assert_eq!(groups.len(), 2);
    assert_eq!(groups[0].0, "y");
    assert_eq!(groups[0].1[0].relative_path, "a.py");
    assert_eq!(groups[1].0, "x");
    lib.clear();
    assert_eq!(lib.len(), 0);
}
