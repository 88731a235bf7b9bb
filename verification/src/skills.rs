//! Skill and tool files of a workspace.
//!
//! A skill is a `SKILL.md` with a YAML front matter that must give its name;
//! a tool is a TypeScript file. This module makes sure the name is there and
//! says where the files go.

use crate::text::{
    chars_of, extend_chars, extend_str, find, find_from_exec, index_of_char, is_whitespace, join2,
    join_path, joined, leading_space, lemma_find_from, lemma_index_of_char, lemma_trim_end,
    lemma_trim_start, matches_at, slice_chars, split_from, split_on, split_on_exec, starts_with,
    starts_with_exec, string_of, trailing_space, trim, trim_exec, trim_start, views,
};
use vstd::prelude::*;

verus! {

/// The content of a skill.
#[derive(Debug, Clone, PartialEq, Eq)]
pub struct SkillContent {
    /// The name of the skill, which is the name of its folder.
    pub name: String,
    /// The content of `SKILL.md`.
    pub content: String,
    /// Further files of the skill, as name and content.
    pub files: Vec<(String, String)>,
}

/// The content of a tool.
#[derive(Debug, Clone, PartialEq, Eq)]
pub struct ToolContent {
    /// The name of the tool, which is its file name without `.ts`.
    pub name: String,
    /// The TypeScript source.
    pub content: String,
}

/// A line that gives a name: trimmed, it begins with `name:` or `name :`.
pub open spec fn is_name_line(line: Seq<char>) -> bool {
    starts_with(trim(line), "name:"@) || starts_with(trim(line), "name :"@)
}

/// One of the lines gives a name.
pub open spec fn has_name_line(lines: Seq<Seq<char>>) -> bool {
    exists|i: int| 0 <= i < lines.len() && is_name_line(#[trigger] lines[i])
}

/// `s` without its leading line feeds.
pub open spec fn trim_start_newlines(s: Seq<char>) -> Seq<char>
    decreases s.len(),
{
    if s.len() > 0 && s[0] == '\n' {
        trim_start_newlines(s.drop_first())
    } else {
        s
    }
}

/// What follows the opening `---` of a content that begins with it.
pub open spec fn after_opening(content: Seq<char>) -> Seq<char> {
    content.subrange(3, content.len() as int)
}

/// The content of a `SKILL.md` with a name made sure of. Content without a
/// front matter gets one in front that holds the name alone; an opening
/// `---` that no second `---` closes is no front matter. A front matter
/// without a name line gets `name: <skill>` as its first line. Content whose
/// front matter has a name line stays as it is, whatever name the line gives.
pub open spec fn with_skill_name(content: Seq<char>, skill: Seq<char>) -> Seq<char> {
    if !starts_with(content, "---"@) {
        "---\nname: "@ + skill + "\n---\n"@ + content
    } else {
        let body = after_opening(content);
        match find(body, "---"@) {
            None => "---\nname: "@ + skill + "\n---\n"@ + content,
            Some(e) => {
                let front = body.subrange(0, e);
                let rest = body.subrange(e, body.len() as int);
                if has_name_line(split_on(front, '\n')) {
                    content
                } else {
                    "---\nname: "@ + skill + "\n"@ + trim(front) + "\n"@ + trim_start_newlines(
                        rest,
                    )
                }
            },
        }
    }
}

fn has_name_line_exec(front: &Vec<char>) -> (r: bool)
    ensures
        r == has_name_line(split_on(front@, '\n')),
{
    let lines = split_on_exec(front, '\n');
    let a = chars_of("name:");
    let b = chars_of("name :");
    let mut i: usize = 0;
    while i < lines.len()
        invariant
            i <= lines.len(),
            a@ == "name:"@,
            b@ == "name :"@,
            views(lines@) == split_on(front@, '\n'),
            forall|j: int| 0 <= j < i ==> !is_name_line(#[trigger] views(lines@)[j]),
        decreases lines.len() - i,
    {
        let t = trim_exec(&lines[i]);
        assert(views(lines@)[i as int] == lines@[i as int]@);
        if starts_with_exec(&t, &a) || starts_with_exec(&t, &b) {
            return true;
        }
        i = i + 1;
    }
    false
}

fn trim_start_newlines_exec(s: &Vec<char>) -> (r: Vec<char>)
    ensures
        r@ == trim_start_newlines(s@),
{
    let mut a: usize = 0;
    assert(s@.subrange(0, s.len() as int) == s@);
    while a < s.len() && s[a] == '\n'
        invariant
            a <= s.len(),
            trim_start_newlines(s@) == trim_start_newlines(s@.subrange(a as int, s.len() as int)),
        decreases s.len() - a,
    {
        assert(s@.subrange(a as int, s.len() as int).drop_first() == s@.subrange(
            a + 1,
            s.len() as int,
        ));
        a = a + 1;
    }
    slice_chars(s, a, s.len())
}

/// Makes sure that the content of a `SKILL.md` names its skill in the front
/// matter, which the agent runtime needs to find the skill.
pub fn ensure_skill_name_in_frontmatter(content: &str, skill_name: &str) -> (r: String)
    ensures
        r@ == with_skill_name(content@, skill_name@),
{
    let c = chars_of(content);
    let open = chars_of("---");
    proof {
        reveal_strlit("---");
    }
    if !starts_with_exec(&c, &open) {
        let mut out = chars_of("---\nname: ");
        extend_str(&mut out, skill_name);
        extend_str(&mut out, "\n---\n");
        extend_chars(&mut out, &c);
        return string_of(&out);
    }
    let body = slice_chars(&c, 3, c.len());
    match find_from_exec(&body, &open, 0) {
        None => {
            let mut out = chars_of("---\nname: ");
            extend_str(&mut out, skill_name);
            extend_str(&mut out, "\n---\n");
            extend_chars(&mut out, &c);
            string_of(&out)
        },
        Some(e) => {
            proof {
                lemma_find_from(body@, open@, 0);
                assert(matches_at(body@, open@, e as int));
            }
            let front = slice_chars(&body, 0, e);
            let rest = slice_chars(&body, e, body.len());
            if has_name_line_exec(&front) {
                string_of(&c)
            } else {
                let mut out = chars_of("---\nname: ");
                extend_str(&mut out, skill_name);
                extend_str(&mut out, "\n");
                extend_chars(&mut out, &trim_exec(&front));
                extend_str(&mut out, "\n");
                extend_chars(&mut out, &trim_start_newlines_exec(&rest));
                string_of(&out)
            }
        },
    }
}

/// The characters with which every content begins that got its name here.
pub open spec fn name_header() -> Seq<char> {
    seq!['-', '-', '-', '\n', 'n', 'a', 'm', 'e', ':', ' ']
}

proof fn lemma_name_header()
    ensures
        "---\nname: "@ == name_header(),
        "---"@ == seq!['-', '-', '-'],
        "name:"@ == seq!['n', 'a', 'm', 'e', ':'],
{
    reveal_strlit("---\nname: ");
    reveal_strlit("---");
    reveal_strlit("name:");
    assert("---\nname: "@ =~= name_header());
    assert("---"@ =~= seq!['-', '-', '-']);
    assert("name:"@ =~= seq!['n', 'a', 'm', 'e', ':']);
}

/// The front matter of a content that begins with the name header, where
/// it is closed, has a name line.
proof fn lemma_headed_is_fixed(tail: Seq<char>)
    ensures
        find(after_opening(name_header() + tail), "---"@) matches Some(e) ==> has_name_line(
            split_on(after_opening(name_header() + tail).subrange(0, e), '\n'),
        ),
{
    lemma_name_header();
    let o = name_header() + tail;
    let open = "---"@;
    assert(o.subrange(0, 3) =~= open);
    assert(starts_with(o, open));
    let body = after_opening(o);
    assert(body.len() >= 7);
    assert(body[0] == '\n' && body[1] == 'n' && body[2] == 'a' && body[3] == 'm' && body[4] == 'e'
        && body[5] == ':' && body[6] == ' ');
    match find(body, open) {
        None => {},
        Some(e) => {
            lemma_find_from(body, open, 0);
            assert(matches_at(body, open, e));
            assert(body.subrange(e, e + 3)[0] == '-');
            assert(body[e] == '-');
            assert(e >= 7);
            let front = body.subrange(0, e);
            assert(front[0] == '\n');
            assert(index_of_char(front, '\n', 0) == 0);
            let k = index_of_char(front, '\n', 1);
            lemma_index_of_char(front, '\n', 1);
            assert(front[1] == 'n' && front[2] == 'a' && front[3] == 'm' && front[4] == 'e'
                && front[5] == ':' && front[6] == ' ');
            assert(k >= 7) by {
                if k < 7 {
                    assert(front[k] == '\n');
                }
            }
            let line = front.subrange(1, k);
            let pieces = split_on(front, '\n');
            assert(split_from(front, '\n', 0) == seq![front.subrange(0, 0)] + split_from(
                front,
                '\n',
                1,
            ));
            if k >= front.len() {
                assert(split_from(front, '\n', 1) == seq![front.subrange(1, front.len() as int)]);
            } else {
                assert(split_from(front, '\n', 1) == seq![front.subrange(1, k)] + split_from(
                    front,
                    '\n',
                    k + 1,
                ));
            }
            assert(pieces[1] == line);
            lemma_name_line(line);
            assert(is_name_line(pieces[1]));
        },
    }
}

/// A line that begins with `name:` gives a name.
proof fn lemma_name_line(line: Seq<char>)
    requires
        line.len() >= 5,
        line[0] == 'n',
        line[1] == 'a',
        line[2] == 'm',
        line[3] == 'e',
        line[4] == ':',
    ensures
        is_name_line(line),
{
    lemma_name_header();
    lemma_trim_start(line);
    assert(leading_space(line) == 0) by {
        assert(!is_whitespace('n'));
    }
    let t = trim_start(line);
    assert(t =~= line);
    lemma_trim_end(t);
    assert(!is_whitespace(':'));
    assert(trailing_space(t) <= t.len() - 5) by {
        if trailing_space(t) > t.len() - 5 {
            assert(is_whitespace(t[4]));
        }
    }
    let r = trim(line);
    assert(r == t.subrange(0, t.len() - trailing_space(t)));
    assert(r.subrange(0, 5) =~= "name:"@);
}

/// The front matter of a content is its text between the opening `---` and
/// the next `---`, where the content begins with one and has another.
pub open spec fn front_matter(content: Seq<char>) -> Option<Seq<char>> {
    if !starts_with(content, "---"@) {
        None
    } else {
        match find(after_opening(content), "---"@) {
            Some(e) => Some(after_opening(content).subrange(0, e)),
            None => None,
        }
    }
}

proof fn lemma_headed_has_front(tail: Seq<char>, at: int)
    requires
        matches_at(after_opening(name_header() + tail), "---"@, at),
    ensures
        front_matter(name_header() + tail) matches Some(front) && has_name_line(
            split_on(front, '\n'),
        ),
{
    lemma_name_header();
    let o = name_header() + tail;
    assert(o.subrange(0, 3) =~= "---"@);
    lemma_headed_is_fixed(tail);
    lemma_find_from(after_opening(o), "---"@, 0);
}

proof fn lemma_closing_follows(head: Seq<char>, rest: Seq<char>)
    requires
        starts_with(rest, "---"@),
        head.len() >= 3,
    ensures
        matches_at(after_opening(head + rest), "---"@, head.len() - 3),
{
    let body = after_opening(head + rest);
    let at = head.len() - 3;
    let n = "---"@.len() as int;
    assert(body.subrange(at, at + n) =~= rest.subrange(0, n));
}

/// After the name has been made sure of, the content has a front matter with
/// a name line.
pub proof fn lemma_ensured_name_is_there(content: Seq<char>, skill: Seq<char>)
    ensures
        front_matter(with_skill_name(content, skill)) matches Some(front) && has_name_line(
            split_on(front, '\n'),
        ),
{
    let o = with_skill_name(content, skill);
    let open = "---"@;
    if front_matter(content) is None {
        let closing = "---\n"@ + content;
        assert(starts_with(closing, open)) by {
            reveal_strlit("---\n");
            reveal_strlit("---");
            assert(closing.subrange(0, 3) =~= open);
        }
        let tail = skill + "\n"@;
        let head = name_header() + tail;
        assert(o =~= head + closing) by {
            lemma_name_header();
            reveal_strlit("\n---\n");
            reveal_strlit("---\n");
            reveal_strlit("\n");
            assert("\n---\n"@ =~= "\n"@ + "---\n"@);
        }
        lemma_closing_follows(head, closing);
        assert(head + closing =~= name_header() + (tail + closing));
        lemma_headed_has_front(tail + closing, head.len() - 3);
    } else {
        let body = after_opening(content);
        let e = find(body, open)->0;
        let front = body.subrange(0, e);
        let rest = body.subrange(e, body.len() as int);
        if !has_name_line(split_on(front, '\n')) {
            assert(starts_with(rest, open) && trim_start_newlines(rest) == rest) by {
                lemma_find_from(body, open, 0);
                reveal_strlit("---");
                assert(rest.subrange(0, 3) =~= body.subrange(e, e + 3));
                assert(rest[0] == body.subrange(e, e + 3)[0]);
            }
            let tail = skill + "\n"@ + trim(front) + "\n"@;
            let head = name_header() + tail;
            assert(o =~= head + rest) by {
                lemma_name_header();
            }
            lemma_closing_follows(head, rest);
            assert(head + rest =~= name_header() + (tail + rest));
            lemma_headed_has_front(tail + rest, head.len() - 3);
        }
    }
}

/// Making sure of the name twice changes nothing the second time.
pub proof fn lemma_ensure_name_idempotent(content: Seq<char>, skill: Seq<char>)
    ensures
        with_skill_name(with_skill_name(content, skill), skill) == with_skill_name(content, skill),
{
    lemma_ensured_name_is_there(content, skill);
}

/// In a content that begins with the name header, the skill and a line
/// feed, the closing of the front matter does not come before that line
/// feed, and the second line of the front matter is the name line, provided
/// the skill holds neither a line feed nor three dashes in a row.
proof fn lemma_header_line(skill: Seq<char>, x: Seq<char>)
    requires
        !skill.contains('\n'),
        !crate::text::contains(skill, "---"@),
        front_matter(name_header() + skill + seq!['\n'] + x) is Some,
    ensures
        split_on(front_matter(name_header() + skill + seq!['\n'] + x)->0, '\n').len() > 1,
        split_on(front_matter(name_header() + skill + seq!['\n'] + x)->0, '\n')[1] == "name: "@
            + skill,
{
    lemma_name_header();
    reveal_strlit("name: ");
    let o = name_header() + skill + seq!['\n'] + x;
    let open = "---"@;
    let body = after_opening(o);
    let n = skill.len() as int;
    assert(o.subrange(0, 3) =~= open);
    let e = find(body, open)->0;
    lemma_find_from(body, open, 0);
    assert(body[0] == '\n' && body[1] == 'n' && body[2] == 'a' && body[3] == 'm' && body[4] == 'e'
        && body[5] == ':' && body[6] == ' ');
    assert forall|k: int| 0 <= k < n implies body[7 + k] == skill[k] by {}
    assert(body[7 + n] == '\n');
    let m = body.subrange(e, e + 3);
    assert(m[0] == '-' && m[1] == '-' && m[2] == '-');
    assert(body[e] == '-' && body[e + 1] == '-' && body[e + 2] == '-');
    assert(e > 7 + n) by {
        if e <= 6 {
        } else if e + 3 <= 7 + n {
            assert(skill.subrange(e - 7, e - 7 + 3) =~= open);
            assert(matches_at(skill, open, e - 7));
        } else if e <= 7 + n {
        }
    }
    let front = body.subrange(0, e);
    assert(front_matter(o) == Some(front));
    assert(front[0] == '\n');
    assert(index_of_char(front, '\n', 0) == 0);
    lemma_index_of_char(front, '\n', 1);
    let k = index_of_char(front, '\n', 1);
    assert(front[7 + n] == '\n');
    assert(k == 7 + n) by {
        if k < 7 + n {
            assert(front[k] == '\n');
            if k >= 7 {
                assert(skill[k - 7] == '\n');
                assert(skill.contains('\n'));
            }
        }
    }
    assert(split_from(front, '\n', 0) == seq![front.subrange(0, 0)] + split_from(front, '\n', 1));
    assert(split_from(front, '\n', 1) == seq![front.subrange(1, k)] + split_from(
        front,
        '\n',
        k + 1,
    ));
    assert(split_on(front, '\n')[1] == front.subrange(1, k));
    assert(front.subrange(1, k) =~= "name: "@ + skill);
}

/// Where the front matter of the content, if it had one, held no name line
/// of its own, the front matter of the result holds the line
/// `name: <skill>`, as its first line after the opening, provided the name
/// of the skill holds neither a line feed nor three dashes in a row.
pub proof fn lemma_inserted_name_line(content: Seq<char>, skill: Seq<char>)
    requires
        !skill.contains('\n'),
        !crate::text::contains(skill, "---"@),
        front_matter(content) matches Some(f) ==> !has_name_line(split_on(f, '\n')),
    ensures
        front_matter(with_skill_name(content, skill)) matches Some(front) && split_on(
            front,
            '\n',
        ).len() > 1 && split_on(front, '\n')[1] == "name: "@ + skill,
{
    lemma_ensured_name_is_there(content, skill);
    let o = with_skill_name(content, skill);
    if front_matter(content) is None {
        let x = "---\n"@ + content;
        assert(o =~= name_header() + skill + seq!['\n'] + x) by {
            lemma_name_header();
            reveal_strlit("\n---\n");
            reveal_strlit("---\n");
            assert("\n---\n"@ =~= seq!['\n'] + "---\n"@);
        }
        lemma_header_line(skill, x);
    } else {
        let body = after_opening(content);
        let e = find(body, "---"@)->0;
        let front = body.subrange(0, e);
        let rest = body.subrange(e, body.len() as int);
        let x = trim(front) + "\n"@ + trim_start_newlines(rest);
        assert(o =~= name_header() + skill + seq!['\n'] + x) by {
            lemma_name_header();
            reveal_strlit("\n");
            assert("\n"@ =~= seq!['\n']);
        }
        lemma_header_line(skill, x);
    }
}

/// A file to write, by its path and content.
#[derive(Debug, Clone, PartialEq, Eq)]
pub struct FileToWrite {
    pub path: String,
    pub content: String,
}

/// The directory of the skills of a workspace.
pub open spec fn skills_dir(workspace_dir: Seq<char>) -> Seq<char> {
    joined(joined(workspace_dir, ".opencode"@), "skill"@)
}

/// The directory of the tools of a workspace.
pub open spec fn tools_dir(workspace_dir: Seq<char>) -> Seq<char> {
    joined(joined(workspace_dir, ".opencode"@), "tool"@)
}

/// The files of one skill: `SKILL.md` with the name made sure of, then the
/// further files as they are, all in the folder of the skill.
pub open spec fn skill_files(workspace_dir: Seq<char>, skill: SkillContent) -> Seq<
    (Seq<char>, Seq<char>),
> {
    let folder = joined(skills_dir(workspace_dir), skill.name@);
    seq![(joined(folder, "SKILL.md"@), with_skill_name(skill.content@, skill.name@))] + Seq::new(
        skill.files@.len(),
        |i: int| (joined(folder, skill.files@[i].0@), skill.files@[i].1@),
    )
}

/// The views of a list of files.
pub open spec fn view_files(v: Seq<FileToWrite>) -> Seq<(Seq<char>, Seq<char>)> {
    Seq::new(v.len(), |i: int| (v[i].path@, v[i].content@))
}

/// Says which files make a skill available in the workspace at
/// `workspace_dir`.
pub fn write_skill_to_workspace(workspace_dir: &str, skill: &SkillContent) -> (r: Vec<FileToWrite>)
    ensures
        view_files(r@) == skill_files(workspace_dir@, *skill),
{
    let base = join_path(workspace_dir, ".opencode");
    let dir = join_path(base.as_str(), "skill");
    let folder = join_path(dir.as_str(), skill.name.as_str());
    let mut out: Vec<FileToWrite> = Vec::new();
    out.push(
        FileToWrite {
            path: join_path(folder.as_str(), "SKILL.md"),
            content: ensure_skill_name_in_frontmatter(skill.content.as_str(), skill.name.as_str()),
        },
    );
    let ghost first = view_files(out@);
    let ghost rest = Seq::new(
        skill.files@.len(),
        |i: int| (joined(folder@, skill.files@[i].0@), skill.files@[i].1@),
    );
    assert(first =~= seq![
        (joined(folder@, "SKILL.md"@), with_skill_name(skill.content@, skill.name@)),
    ]);
    let mut i: usize = 0;
    while i < skill.files.len()
        invariant
            i <= skill.files@.len(),
            folder@ == joined(skills_dir(workspace_dir@), skill.name@),
            rest == Seq::new(
                skill.files@.len(),
                |i: int| (joined(folder@, skill.files@[i].0@), skill.files@[i].1@),
            ),
            view_files(out@) =~= first + rest.take(i as int),
        decreases skill.files@.len() - i,
    {
        let ghost before = out@;
        out.push(
            FileToWrite {
                path: join_path(folder.as_str(), skill.files[i].0.as_str()),
                content: skill.files[i].1.clone(),
            },
        );
        assert(view_files(out@) =~= view_files(before).push(rest[i as int]));
        assert(rest.take(i + 1) =~= rest.take(i as int).push(rest[i as int]));
        i = i + 1;
    }
    assert(rest.take(rest.len() as int) == rest);
    out
}

/// Says which file makes a tool available in the workspace at
/// `workspace_dir`: `<name>.ts` in the tools directory.
pub fn write_tool_to_workspace(workspace_dir: &str, tool: &ToolContent) -> (r: FileToWrite)
    ensures
        r.path@ == joined(tools_dir(workspace_dir@), tool.name@ + ".ts"@),
        r.content@ == tool.content@,
{
    let base = join_path(workspace_dir, ".opencode");
    let dir = join_path(base.as_str(), "tool");
    let file = join2(tool.name.as_str(), ".ts");
    FileToWrite { path: join_path(dir.as_str(), file.as_str()), content: tool.content.clone() }
}

} // verus!
