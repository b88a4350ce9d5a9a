use codecrab::json::Json;
use codecrab::paths::Platform;
use codecrab::registry::{
    check_resource, display_path, mentioned_skill_names, resource_answer, Found, Resource,
    SkillAction, SkillRegistry,
};
use codecrab::skills::{
    derived_description, discovery_roots, parse_skill, skill_head, skill_sections,
    validate_metadata, Ancestor, Frontmatter, Skill, SkillError, SkillFile, SkillScope,
};

/// What the head of a skill says, where both of its fields are texts.
fn front(text: &str) -> Option<Frontmatter> {
    let value: yaml_serde::Value = yaml_serde::from_str(text).ok()?;
    Some(Frontmatter {
        name: value.get("name")?.as_str()?.to_owned(),
        description: value.get("description")?.as_str()?.to_owned(),
    })
}

fn parsed(directory: &str, name: &str, scope: SkillScope, content: &str) -> Result<Skill, SkillError> {
    let file = SkillFile {
        path: format!("{directory}/{name}/SKILL.md"),
        root: format!("{directory}/{name}"),
        directory: Some(name.to_owned()),
        size: content.len() as u64,
        scope,
    };
    let head = match skill_head(content) {
        Some((text, true)) => front(&text),
        _ => None,
    };
    parse_skill(file, content.to_owned(), head)
}

fn found(directory: &str, name: &str, scope: SkillScope, content: &str) -> Found {
    Found::File {
        path: format!("{directory}/{name}/SKILL.md"),
        skill: parsed(directory, name, scope, content).map_err(|error| error.message()),
    }
}

fn skill_text(name: &str, description: &str, body: &str) -> String {
    format!("---\nname: {name}\ndescription: {description}\n---\n\n{body}\n")
}

#[test]
fn discovers_and_activates_valid_skills() {
    let text = skill_text(
        "review-code",
        "Review Rust code when asked for a review.",
        "Inspect the diff and report correctness issues.",
    );
    let registry =
        SkillRegistry::discover(vec![found("/skills", "review-code", SkillScope::Project, &text)]);

    assert_eq!(registry.skills.len(), 1);
    assert_eq!(registry.skills[0].path, "/skills/review-code/SKILL.md");
    let catalog = registry.catalog_prompt(Platform::Linux);
    assert!(catalog.contains("/review-code"));
    assert!(catalog.contains("name: review-code"));
    assert!(!catalog.contains("Inspect the diff"));
    assert!(registry
        .explicit_instructions("Use /review-code on this patch")
        .unwrap()
        .contains("Inspect the diff"));
    assert!(registry
        .explicit_instructions("$review-code is plain prompt text")
        .unwrap()
        .is_empty());
}

#[test]
fn initial_content_is_the_first_non_empty_separator_section() {
    let registry = SkillRegistry::discover(vec![
        found(
            "/skills",
            "missing-opening",
            SkillScope::Project,
            "name: missing-opening\ndescription: Header without an opening separator.\n---\nSECRET BODY",
        ),
        found(
            "/skills",
            "plain-skill",
            SkillScope::Project,
            "# Plain skill\nFollow every instruction in this file.",
        ),
    ]);
    let catalog = registry.catalog_prompt(Platform::Linux);

    assert_eq!(registry.skills.len(), 2);
    assert!(catalog.contains("name: missing-opening"));
    assert!(!catalog.contains("SECRET BODY"));
    assert!(catalog.contains("# Plain skill"));
    assert!(catalog.contains("Follow every instruction in this file."));
    assert_eq!(
        registry
            .skills()
            .iter()
            .find(|skill| skill.name == "plain-skill")
            .unwrap()
            .description,
        "Plain skill"
    );
}

#[test]
fn rejects_invalid_metadata_and_name_mismatches() {
    let registry = SkillRegistry::discover(vec![found(
        "/skills",
        "wrong-folder",
        SkillScope::Project,
        "---\nname: Other\ndescription: nope\n---\nbody",
    )]);
    assert!(registry.skills.is_empty());
    assert_eq!(
        registry.warnings,
        vec!["/skills/wrong-folder/SKILL.md: invalid skill name \"Other\"".to_owned()]
    );
}

#[test]
fn skill_resources_can_use_parent_paths() {
    let text = skill_text(
        "safe-skill",
        "A safe test workflow.",
        "Read references only when needed.",
    );
    let registry =
        SkillRegistry::discover(vec![found("/temp/skills", "safe-skill", SkillScope::Project, &text)]);

    let action = registry.execute(
        Platform::Linux,
        "read_skill_file",
        r#"{"name":"safe-skill","path":"../../secret.txt"}"#,
    );
    let SkillAction::Read { name, requested, relative } = action else {
        panic!("a resource has to be read");
    };
    assert_eq!(requested, "/temp/skills/safe-skill/../../secret.txt");
    assert!(check_resource(true, 7).is_none());
    let result = resource_answer(
        &name,
        &relative,
        Resource::Read { path: "/temp/secret.txt".to_owned(), content: "outside".to_owned() },
    );
    assert!(matches!(result.get("ok"), Some(Json::Bool(true))));
    assert_eq!(
        result.get("result").unwrap().get_str("content"),
        Some("outside")
    );
}

#[test]
fn project_skill_shadows_later_user_skill() {
    let registry = SkillRegistry::discover(vec![
        found(
            "/project",
            "shared",
            SkillScope::Project,
            &skill_text("shared", "Project version.", "Project body."),
        ),
        found(
            "/user",
            "shared",
            SkillScope::User,
            &skill_text("shared", "User version.", "User body."),
        ),
    ]);
    assert_eq!(registry.skills.len(), 1);
    assert_eq!(registry.skills[0].description, "Project version.");
    assert_eq!(registry.warnings.len(), 1);
    assert_eq!(
        registry.warnings[0],
        "/user/shared/SKILL.md is shadowed by an earlier skill with the same name"
    );
}

#[test]
fn a_file_counts_once_and_places_that_fail_are_told_of() {
    let text = skill_text("one", "One.", "Body.");
    let registry = SkillRegistry::discover(vec![
        Found::Unscanned { root: "/a".to_owned(), error: "denied".to_owned() },
        found("/skills", "one", SkillScope::User, &text),
        found("/skills", "one", SkillScope::Custom, &text),
        Found::Unresolved { path: "/b".to_owned(), error: "loop".to_owned() },
    ]);
    assert_eq!(registry.skills.len(), 1);
    assert_eq!(
        registry.warnings,
        vec!["cannot scan /a: denied".to_owned(), "cannot resolve /b: loop".to_owned()]
    );
    let (lines, warnings) = registry.print(Platform::Linux);
    assert_eq!(lines[0], "NAME                      SCOPE      DESCRIPTION");
    assert_eq!(lines[1], "one                       user       One.");
    assert_eq!(lines[2], format!("{:36}/skills/one/SKILL.md", ""));
    assert_eq!(warnings[0], "\nSkipped skills:");
    assert_eq!(warnings[1], "  - cannot scan /a: denied");
}

#[test]
fn sections_stand_between_lines_of_three_hyphens() {
    assert_eq!(
        skill_sections("a\n---\r\nb\n----\n---"),
        vec!["a\n".to_owned(), "b\n----\n".to_owned(), String::new()]
    );
    assert_eq!(skill_sections(""), vec![String::new()]);
    assert_eq!(
        skill_head("\u{feff}\n---\n head \n---\nbody"),
        Some(("head".to_owned(), true))
    );
    assert_eq!(skill_head(" \n---\n"), None);
}

#[test]
fn each_fault_of_a_skill_is_told() {
    let fault = |content: &str| parsed("/s", "name", SkillScope::User, content).unwrap_err().message();
    assert_eq!(fault(""), "SKILL.md is empty");
    assert_eq!(
        fault("name: name\ndescription: d\n---\n"),
        "SKILL.md must contain instructions after the metadata section"
    );
    assert_eq!(
        fault("name: other\ndescription: d\n---\nx"),
        "skill name must match its parent directory"
    );
    assert_eq!(
        fault("name: name\ndescription: ' '\n---\nx"),
        "description must contain 1 to 1024 characters"
    );
    assert_eq!(
        fault(&"x".repeat(524_289)),
        "SKILL.md is larger than 524288 bytes"
    );
    let nameless = SkillFile {
        path: "/SKILL.md".to_owned(),
        root: "/".to_owned(),
        directory: None,
        size: 1,
        scope: SkillScope::User,
    };
    assert_eq!(
        parse_skill(nameless, "x".to_owned(), None).unwrap_err().message(),
        "skill directory name is not valid UTF-8"
    );
    assert!(validate_metadata("a--b", "d", Some("a--b")).is_err());
    assert!(validate_metadata("-a", "d", Some("-a")).is_err());
    assert!(validate_metadata("a-1", "d", Some("a-1")).is_ok());
    assert!(validate_metadata(&"a".repeat(65), "d", None).is_err());
}

#[test]
fn skills_without_a_head_are_described_by_their_first_line() {
    assert_eq!(derived_description("\n  ## Title \nmore", "x"), "Title");
    assert_eq!(derived_description("###\nmore", "x"), "Instructions for /x.");
    assert_eq!(derived_description("", "x"), "Instructions for /x.");
    assert_eq!(derived_description(&"y".repeat(2000), "x").len(), 1024);
}

#[test]
fn names_are_asked_for_behind_one_slash() {
    assert_eq!(
        mentioned_skill_names("/b then /a, http://host/a and //c /-d /e--f /b"),
        vec!["b".to_owned(), "a".to_owned(), "a".to_owned(), "b".to_owned()]
    );
    let registry = SkillRegistry::discover(vec![
        found("/s", "b", SkillScope::User, &skill_text("b", "B.", "Body b.")),
        found("/s", "a", SkillScope::User, &skill_text("a", "A.", "Body a.")),
    ]);
    let text = registry.explicit_instructions("/b /a /b /missing").unwrap();
    assert!(text.starts_with("\n\n<activated_skill name=\"a\" root=\"/s/a\">\n"));
    assert!(text.find("Body a.") < text.find("Body b."));
    assert_eq!(text.matches("<activated_skill").count(), 2);
    assert_eq!(registry.explicit_instructions("/a, /b and /unknown").unwrap(), text);
}

#[test]
fn too_many_instructions_are_refused() {
    let body = "x".repeat(70_000);
    let registry = SkillRegistry::discover(vec![
        found("/s", "a", SkillScope::User, &skill_text("a", "A.", &body)),
        found("/s", "b", SkillScope::User, &skill_text("b", "B.", &body)),
    ]);
    assert!(registry.explicit_instructions("/a").is_ok());
    assert_eq!(
        registry.explicit_instructions("/a /b").unwrap_err(),
        "explicit skill instructions exceed the 128000 character safety limit"
    );
}

#[test]
fn tools_on_skills_answer_what_is_wrong() {
    let empty = SkillRegistry::discover(Vec::new());
    assert!(empty.definitions().is_empty());
    assert_eq!(empty.catalog_prompt(Platform::Linux), "");
    assert_eq!(empty.print(Platform::Linux).0, vec!["No skills found.".to_owned()]);
    let registry = SkillRegistry::discover(vec![found(
        "/s",
        "a",
        SkillScope::Custom,
        &skill_text("a", "A.", "Body."),
    )]);
    assert_eq!(registry.definitions().len(), 2);
    assert!(registry.handles("load_skill"));
    assert!(!registry.handles("shell"));
    let answer = |name: &str, args: &str| match registry.execute(Platform::Linux, name, args) {
        SkillAction::Answer(answer) => answer,
        other => panic!("{other:?}"),
    };
    let loaded = answer("load_skill", r#"{"name":"a"}"#);
    assert_eq!(loaded.get("result").unwrap().get_str("root"), Some("/s/a"));
    assert_eq!(
        answer("load_skill", r#"{"name":"z"}"#).get_str("error"),
        Some("unknown skill \"z\"")
    );
    assert_eq!(
        answer("fly", r#"{"name":"a"}"#).get_str("error"),
        Some("unknown skill tool \"fly\"")
    );
    assert_eq!(
        answer("read_skill_file", r#"{"name":"a"}"#).get_str("error"),
        Some("missing string argument \"path\"")
    );
    assert!(answer("load_skill", "{").get_str("error").unwrap().starts_with("invalid arguments: "));
    let large = resource_answer("a", "b", check_resource(true, 1_048_577).unwrap());
    assert_eq!(
        large.get_str("error"),
        Some("skill resource is larger than 1048576 bytes")
    );
    let none = resource_answer("a", "b", check_resource(false, 0).unwrap());
    assert_eq!(none.get_str("error"), Some("skill resource is not a file"));
    let lost = resource_answer("a", "b", Resource::Unresolved("gone".to_owned()));
    assert_eq!(
        lost.get_str("error"),
        Some("cannot resolve skill resource \"b\": gone")
    );
}

#[test]
fn skills_are_looked_for_up_to_the_repository() {
    let ancestor = |path: &str, repository: bool| Ancestor { path: path.to_owned(), repository };
    let roots = discovery_roots(
        Platform::Linux,
        &vec![ancestor("/w/repo/sub", false), ancestor("/w/repo", true), ancestor("/w", false)],
        Some("/home/me"),
        None,
        &vec!["/extra".to_owned()],
    );
    let paths: Vec<&str> = roots.iter().map(|(path, _)| path.as_str()).collect();
    assert_eq!(
        paths,
        vec![
            "/w/repo/sub/.agents/skills",
            "/w/repo/.agents/skills",
            "/home/me/.agents/skills",
            "/home/me/.codex/skills",
            "/extra",
        ]
    );
    let alone = discovery_roots(Platform::Linux, &vec![ancestor("/w", false), ancestor("/", false)], None, None, &Vec::new());
    assert_eq!(alone.len(), 1);
    assert_eq!(SkillScope::Custom.label(), "custom");
}

#[test]
fn long_windows_paths_are_shown_plainly() {
    assert_eq!(display_path(Platform::Windows, r"\\?\C:\a"), r"C:\a");
    assert_eq!(display_path(Platform::Windows, r"\\?\UNC\host\a"), r"\\host\a");
    assert_eq!(display_path(Platform::Linux, r"\\?\C:\a"), r"\\?\C:\a");
}
