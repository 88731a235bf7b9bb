use open_agent::skills::{
    ensure_skill_name_in_frontmatter, write_skill_to_workspace, write_tool_to_workspace,
    FileToWrite, SkillContent, ToolContent,
};
use open_agent::workspace::{write_skills_to_workspace, write_tools_to_workspace};

#[test]
fn content_without_front_matter_gets_one() {
    assert_eq!(
        ensure_skill_name_in_frontmatter("# Title\n\nBody", "my-skill"),
        "---\nname: my-skill\n---\n# Title\n\nBody"
    );
    assert_eq!(ensure_skill_name_in_frontmatter("", "s"), "---\nname: s\n---\n");
}

#[test]
fn front_matter_without_a_name_gets_one() {
    assert_eq!(
        ensure_skill_name_in_frontmatter("---\ndescription: A skill\n---\n# Body", "my-skill"),
        "---\nname: my-skill\ndescription: A skill\n---\n# Body"
    );
    assert_eq!(
        ensure_skill_name_in_frontmatter("---\n\n  description: x  \n\n---body", "s"),
        "---\nname: s\ndescription: x\n---body"
    );
    assert_eq!(ensure_skill_name_in_frontmatter("------", "s"), "---\nname: s\n\n---");
}

#[test]
fn an_existing_name_stays() {
    let named = "---\nname: other\ndescription: x\n---\nBody";
    assert_eq!(ensure_skill_name_in_frontmatter(named, "my-skill"), named);
    let spaced = "---\n  name : other\n---\n";
    assert_eq!(ensure_skill_name_in_frontmatter(spaced, "my-skill"), spaced);
    let windows = "---\r\nname: other\r\n---\r\nBody";
    assert_eq!(ensure_skill_name_in_frontmatter(windows, "my-skill"), windows);
}

#[test]
fn an_open_front_matter_gets_a_block_in_front() {
    let open = "---\ndescription: never closed\n";
    assert_eq!(
        ensure_skill_name_in_frontmatter(open, "s"),
        "---\nname: s\n---\n---\ndescription: never closed\n"
    );
    assert_eq!(ensure_skill_name_in_frontmatter("---", "s"), "---\nname: s\n---\n---");
    assert_eq!(
        ensure_skill_name_in_frontmatter("---\nname: other\nno end", "mine"),
        "---\nname: mine\n---\n---\nname: other\nno end"
    );
    assert_eq!(ensure_skill_name_in_frontmatter("-----", "s"), "---\nname: s\n---\n-----");
}

#[test]
fn the_result_always_names_a_skill() {
    for content in ["", "Body", "---", "---\nopen", "---\nx: y\n---\n", "---\nname: z\n---", "------"] {
        let out = ensure_skill_name_in_frontmatter(content, "my-skill");
        assert!(out.starts_with("---"), "{:?}", content);
        let block = out[3..].split("---").next().unwrap();
        assert!(out[3..].contains("---"), "{:?}", content);
        assert!(
            block.lines().any(|l| l.trim().starts_with("name:") || l.trim().starts_with("name :")),
            "{:?}",
            content
        );
    }
}

#[test]
fn making_sure_of_the_name_twice_changes_nothing() {
    for content in [
        "# Title",
        "",
        "---\ndescription: x\n---\nBody",
        "---\nname: other\n---\n",
        "---\nunclosed",
        "------",
        "---\n---\n",
        "--- name: x ---",
    ] {
        for skill in ["my-skill", "a---b", "x\ny", ""] {
            let once = ensure_skill_name_in_frontmatter(content, skill);
            let twice = ensure_skill_name_in_frontmatter(&once, skill);
            assert_eq!(once, twice, "{:?} {:?}", content, skill);
        }
    }
}

#[test]
fn the_inserted_name_is_the_first_line_of_the_block() {
    let out = ensure_skill_name_in_frontmatter("---\ndescription: x\n---\n", "my-skill");
    let block = out[3..].split("---").next().unwrap();
    assert!(block.lines().any(|l| l == "name: my-skill"));
    let fresh = ensure_skill_name_in_frontmatter("Body", "my-skill");
    let block = fresh[3..].split("---").next().unwrap();
    assert_eq!(block.lines().nth(1), Some("name: my-skill"));
}

#[test]
fn files_of_a_skill() {
    let skill = SkillContent {
        name: "deploy".to_string(),
        content: "# Deploy".to_string(),
        files: vec![("notes.md".to_string(), "n".to_string()), ("more.md".to_string(), "m".to_string())],
    };
    let files = write_skill_to_workspace("/w/m", &skill);
    assert_eq!(
        files,
        vec![
            FileToWrite {
                path: "/w/m/.opencode/skill/deploy/SKILL.md".to_string(),
                content: "---\nname: deploy\n---\n# Deploy".to_string(),
            },
            FileToWrite { path: "/w/m/.opencode/skill/deploy/notes.md".to_string(), content: "n".to_string() },
            FileToWrite { path: "/w/m/.opencode/skill/deploy/more.md".to_string(), content: "m".to_string() },
        ]
    );
    let all = write_skills_to_workspace("/w/m", &vec![skill.clone(), skill]);
    assert_eq!(all.len(), 6);
    assert_eq!(all[3].path, "/w/m/.opencode/skill/deploy/SKILL.md");
    assert!(write_skills_to_workspace("/w/m", &vec![]).is_empty());
}

#[test]
fn file_of_a_tool() {
    let tool = ToolContent { name: "lint".to_string(), content: "export {}".to_string() };
    let file = write_tool_to_workspace("/w/m", &tool);
    assert_eq!(file.path, "/w/m/.opencode/tool/lint.ts");
    assert_eq!(file.content, "export {}");
    let all = write_tools_to_workspace("/w/m", &vec![tool.clone(), tool]);
    assert_eq!(all.len(), 2);
    assert_eq!(all[1].path, "/w/m/.opencode/tool/lint.ts");
}
