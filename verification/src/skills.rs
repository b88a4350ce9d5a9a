//! Skills: instructions for tasks that a model can be given.
use crate::message;
use crate::paths;
use crate::paths::Platform;
use crate::payload;
use crate::text;
use vstd::prelude::*;
use vstd::string::*;

verus! {

/// How large the file of a skill may be.
pub const MAX_SKILL_BYTES: u64 = 524_288;

/// How large a resource of a skill may be.
pub const MAX_RESOURCE_BYTES: u64 = 1_048_576;

/// How many characters of instructions a prompt may ask for.
pub const MAX_ACTIVE_CHARS: usize = 128_000;

/// Where a skill comes from.
#[derive(Clone, Copy, Debug, PartialEq, Eq, Structural)]
pub enum SkillScope {
    Project,
    User,
    Custom,
}

impl SkillScope {
    /// What the scope is called.
    pub open spec fn text(self) -> Seq<char> {
        match self {
            SkillScope::Project => "project"@,
            SkillScope::User => "user"@,
            SkillScope::Custom => "custom"@,
        }
    }

    /// What the scope is called.
    pub fn label(self) -> (s: &'static str)
        ensures
            s@ == self.text(),
    {
        match self {
            SkillScope::Project => "project",
            SkillScope::User => "user",
            SkillScope::Custom => "custom",
        }
    }
}

/// A skill.
#[derive(Debug)]
pub struct Skill {
    pub name: String,
    pub description: String,
    pub path: String,
    pub root: String,
    pub scope: SkillScope,
    pub content: String,
    pub initial_content: String,
}

/// What the head of a skill says of it.
#[derive(Debug)]
pub struct Frontmatter {
    pub name: String,
    pub description: String,
}

/// Why a file is no skill.
#[derive(Debug)]
pub enum SkillError {
    TooLarge,
    Empty,
    NoInstructions,
    DirectoryName,
    Name(String),
    OtherDirectory,
    Description,
}

/// Why a file is no skill.
pub enum SkillFault {
    TooLarge,
    Empty,
    NoInstructions,
    DirectoryName,
    Name(Seq<char>),
    OtherDirectory,
    Description,
}

impl View for SkillError {
    type V = SkillFault;

    open spec fn view(&self) -> SkillFault {
        match *self {
            SkillError::TooLarge => SkillFault::TooLarge,
            SkillError::Empty => SkillFault::Empty,
            SkillError::NoInstructions => SkillFault::NoInstructions,
            SkillError::DirectoryName => SkillFault::DirectoryName,
            SkillError::Name(n) => SkillFault::Name(n@),
            SkillError::OtherDirectory => SkillFault::OtherDirectory,
            SkillError::Description => SkillFault::Description,
        }
    }
}

impl SkillFault {
    /// What a person is told.
    pub open spec fn text(self) -> Seq<char> {
        match self {
            SkillFault::TooLarge => "SKILL.md is larger than "@ + text::decimal(
                MAX_SKILL_BYTES as nat,
            ) + " bytes"@,
            SkillFault::Empty => "SKILL.md is empty"@,
            SkillFault::NoInstructions =>
                "SKILL.md must contain instructions after the metadata section"@,
            SkillFault::DirectoryName => "skill directory name is not valid UTF-8"@,
            SkillFault::Name(n) => "invalid skill name "@ + text::quoted(n),
            SkillFault::OtherDirectory => "skill name must match its parent directory"@,
            SkillFault::Description => "description must contain 1 to 1024 characters"@,
        }
    }
}

impl SkillError {
    /// What a person is told.
    pub fn message(&self) -> (s: String)
        ensures
            s@ == self@.text(),
    {
        match self {
            SkillError::TooLarge => text::cat3(
                "SKILL.md is larger than ",
                &text::to_decimal(MAX_SKILL_BYTES),
                " bytes",
            ),
            SkillError::Empty => "SKILL.md is empty".to_owned(),
            SkillError::NoInstructions =>
                "SKILL.md must contain instructions after the metadata section".to_owned(),
            SkillError::DirectoryName => "skill directory name is not valid UTF-8".to_owned(),
            SkillError::Name(n) => text::cat2("invalid skill name ", &text::quote(n)),
            SkillError::OtherDirectory => "skill name must match its parent directory".to_owned(),
            SkillError::Description => "description must contain 1 to 1024 characters".to_owned(),
        }
    }
}

// ---------------------------------------------------------------------------
// The sections of a skill

/// Where the line that begins at a position ends, its line feed included.
pub open spec fn line_end(s: Seq<char>, from: int) -> int {
    let end = text::position_from(s, '\n', from);
    if end < s.len() {
        end + 1
    } else {
        s.len() as int
    }
}

/// Whether a line separates sections.
pub open spec fn separates(line: Seq<char>) -> bool {
    text::strip_back(line, |c: char| c == '\r' || c == '\n') == "---"@
}

/// The sections from `start` on, of which the lines from `from` on have not been looked at.
pub open spec fn sections_from(s: Seq<char>, start: int, from: int) -> Seq<Seq<char>>
    decreases s.len() - from,
    when 0 <= from <= s.len()
    via sections_decreases
{
    if from >= s.len() {
        seq![s.subrange(start, s.len() as int)]
    } else {
        let end = line_end(s, from);
        if separates(s.subrange(from, end)) {
            seq![s.subrange(start, from)] + sections_from(s, end, end)
        } else {
            sections_from(s, start, end)
        }
    }
}

#[via_fn]
proof fn sections_decreases(s: Seq<char>, start: int, from: int) {
    text::lemma_position_from(s, '\n', from);
}

/// The sections of a skill, between the lines that separate them.
pub open spec fn sections(s: Seq<char>) -> Seq<Seq<char>> {
    sections_from(s, 0, 0)
}

/// The sections of a skill, between the lines that separate them.
pub fn skill_sections(content: &str) -> (r: Vec<String>)
    ensures
        text::views(r@) == sections(content@),
        r@.len() > 0,
{
    let v = text::chars_of(content);
    let mut r = text::no_texts();
    let mut start: usize = 0;
    let mut from: usize = 0;
    assert(text::views(r@) + sections_from(content@, 0, 0) == sections(content@));
    while from < v.len()
        invariant
            v@ == content@,
            start <= from <= v@.len(),
            text::views(r@) + sections_from(content@, start as int, from as int) == sections(
                content@,
            ),
        decreases v@.len() - from,
    {
        let feed: usize = text::find_from(&v, '\n', from);
        let end: usize = if feed < v.len() {
            feed + 1
        } else {
            v.len()
        };
        let line = text::text_of_range(&v, from, end);
        if text::same(text::trim_end_of(&line, '\r', '\n'), "---") {
            let section = text::text_of_range(&v, start, from);
            let ghost before = text::views(r@);
            let ghost p = section@;
            let ghost more = sections_from(content@, end as int, end as int);
            r = text::with(r, &section);
            assert(before + (seq![p] + more) == before.push(p) + more);
            start = end;
        }
        from = end;
    }
    let section = text::text_of_range(&v, start, v.len());
    let ghost before = text::views(r@);
    let ghost p = section@;
    r = text::with(r, &section);
    assert(before + seq![p] == before.push(p));
    r
}

/// The position of the first section from `i` on that says anything.
pub open spec fn first_said(sections: Seq<Seq<char>>, i: int) -> int
    decreases sections.len() - i,
{
    if i >= sections.len() {
        sections.len() as int
    } else if text::trimmed(sections[i]).len() > 0 {
        i
    } else {
        first_said(sections, i + 1)
    }
}

fn find_said(sections: &Vec<String>, from: usize) -> (r: usize)
    requires
        from <= sections@.len(),
    ensures
        r as int == first_said(text::views(sections@), from as int),
        r <= sections@.len(),
        r < sections@.len() ==> text::trimmed(sections@[r as int]@).len() > 0,
{
    let ghost all = text::views(sections@);
    let mut i: usize = from;
    while i < sections.len() && text::trim(&sections[i]).is_empty()
        invariant
            from <= i <= sections@.len(),
            all == text::views(sections@),
            first_said(all, from as int) == first_said(all, i as int),
        decreases sections@.len() - i,
    {
        assert(all[i as int] == sections@[i as int]@);
        i += 1;
    }
    assert(i < all.len() ==> all[i as int] == sections@[i as int]@);
    i
}

/// A skill without a mark at its start that tells the order of bytes.
pub open spec fn unmarked(content: Seq<char>) -> Seq<char> {
    if content.len() > 0 && content[0] == '\u{feff}' {
        content.skip(1)
    } else {
        content
    }
}

fn without_mark(content: &str) -> (r: String)
    ensures
        r@ == unmarked(content@),
{
    let v = text::chars_of(content);
    if v.len() > 0 && v[0] == '\u{feff}' {
        let r = text::text_of_range(&v, 1, v.len());
        assert(r@ == content@.skip(1));
        r
    } else {
        content.to_owned()
    }
}

/// The first section of a skill that says anything, and whether another follows.
pub open spec fn head_of(content: Seq<char>) -> Option<(Seq<char>, bool)> {
    let all = sections(unmarked(content));
    let i = first_said(all, 0);
    if i < all.len() {
        Some((text::trimmed(all[i]), i + 1 < all.len()))
    } else {
        None
    }
}

/// The first section of a skill that says anything.
pub open spec fn initial_of(content: Seq<char>) -> Option<Seq<char>> {
    match head_of(content) {
        Some((initial, _)) => Some(initial),
        None => None,
    }
}

/// Whether anything is said after the first section that says anything.
pub open spec fn has_body(content: Seq<char>) -> bool {
    let all = sections(unmarked(content));
    first_said(all, first_said(all, 0) + 1) < all.len()
}

/// The first section of a skill that says anything, and whether another follows, so that the first
/// may be the head of the skill.
pub fn skill_head(content: &str) -> (r: Option<(String, bool)>)
    ensures
        match r {
            Some((s, b)) => head_of(content@) == Some((s@, b)),
            None => head_of(content@) is None,
        },
{
    let all = skill_sections(&without_mark(content));
    let ghost views = text::views(all@);
    let i: usize = find_said(&all, 0);
    if i < all.len() {
        assert(views[i as int] == all@[i as int]@);
        Some((text::trim(&all[i]).to_owned(), i + 1 < all.len()))
    } else {
        None
    }
}

// ---------------------------------------------------------------------------
// What a skill says of itself

/// The first line that says anything, without white space round it, from the `i`-th on.
pub open spec fn first_line(lines: Seq<Seq<char>>, i: int) -> Option<Seq<char>>
    decreases lines.len() - i,
{
    if i >= lines.len() {
        None
    } else if text::trimmed(lines[i]).len() > 0 {
        Some(text::trimmed(lines[i]))
    } else {
        first_line(lines, i + 1)
    }
}

/// A line without the marks of a heading.
pub open spec fn without_heading(line: Seq<char>) -> Seq<char> {
    text::trimmed(text::strip_front(line, |c: char| c == '#'))
}

/// What a skill without a head is described by: its first line.
pub open spec fn description_from(initial_content: Seq<char>, name: Seq<char>) -> Seq<char> {
    match first_line(text::lines(initial_content), 0) {
        Some(line) => if without_heading(line).len() > 0 {
            text::first_chars(without_heading(line), 1024)
        } else {
            "Instructions for /"@ + name + "."@
        },
        None => "Instructions for /"@ + name + "."@,
    }
}

/// What a skill without a head is described by.
pub fn derived_description(initial_content: &str, name: &str) -> (s: String)
    ensures
        s@ == description_from(initial_content@, name@),
{
    let lines = text::lines_of(initial_content);
    let ghost views = text::views(lines@);
    let mut i: usize = 0;
    while i < lines.len()
        invariant
            i <= lines@.len(),
            views == text::views(lines@),
            views == text::lines(initial_content@),
            first_line(views, 0) == first_line(views, i as int),
        decreases lines@.len() - i,
    {
        assert(views[i as int] == lines@[i as int]@);
        let line = text::trim(&lines[i]);
        if !line.is_empty() {
            let said = text::trim(text::trim_start_of(line, '#'));
            if !said.is_empty() {
                return text::take_chars(said, 1024).to_owned();
            }
            return text::cat3("Instructions for /", name, ".");
        }
        i += 1;
    }
    text::cat3("Instructions for /", name, ".")
}

/// Whether a character may stand in the name of a skill.
pub open spec fn is_name_char(c: char) -> bool {
    text::is_lower(c) || text::is_digit(c) || c == '-'
}

/// Whether a character may stand in the name of a skill.
pub fn name_char(c: char) -> (r: bool)
    ensures
        r == is_name_char(c),
{
    text::lower(c) || text::digit(c) || c == '-'
}

/// Whether hyphens stand only singly and between other characters.
pub open spec fn well_hyphenated(name: Seq<char>) -> bool {
    !text::begins_with(name, "-"@) && !text::finishes_with(name, "-"@) && !text::contains_text(
        name,
        "--"@,
    )
}

/// Whether a text may name a skill.
pub open spec fn is_skill_name(name: Seq<char>) -> bool {
    &&& 0 < name.len() <= 64
    &&& forall|i: int| 0 <= i < name.len() ==> is_name_char(#[trigger] name[i])
    &&& well_hyphenated(name)
}

/// Whether hyphens stand only singly and between other characters.
pub fn hyphens_are_single(name: &str) -> (r: bool)
    ensures
        r == well_hyphenated(name@),
{
    !text::starts_with(name, "-") && !text::ends_with(name, "-") && !text::contains(name, "--")
}

/// Whether a text may name a skill.
fn names_a_skill(name: &str) -> (r: bool)
    ensures
        r == is_skill_name(name@),
{
    let v = text::chars_of(name);
    if v.len() == 0 || v.len() > 64 {
        return false;
    }
    let mut i: usize = 0;
    while i < v.len()
        invariant
            i <= v@.len(),
            v@ == name@,
            forall|j: int| 0 <= j < i ==> is_name_char(#[trigger] name@[j]),
        decreases v@.len() - i,
    {
        if !name_char(v[i]) {
            assert(!is_name_char(name@[i as int]));
            return false;
        }
        i += 1;
    }
    hyphens_are_single(name)
}

/// What is wrong with what a skill says of itself, where anything is.
pub open spec fn metadata_fault(
    name: Seq<char>,
    description: Seq<char>,
    directory: Option<Seq<char>>,
) -> Option<SkillFault> {
    if !is_skill_name(name) {
        Some(SkillFault::Name(name))
    } else if directory != Some(name) {
        Some(SkillFault::OtherDirectory)
    } else if description.len() == 0 || description.len() > 1024 {
        Some(SkillFault::Description)
    } else {
        None
    }
}

/// Whether what a skill says of itself is allowed; `directory` is the name of where it is.
pub fn validate_metadata(name: &str, description: &str, directory: Option<&str>) -> (r: Result<
    (),
    SkillError,
>)
    ensures
        r is Ok == metadata_fault(name@, description@, payload::str_view(directory)) is None,
        r matches Err(e) ==> metadata_fault(name@, description@, payload::str_view(directory))
            == Some(e@),
{
    if !names_a_skill(name) {
        return Err(SkillError::Name(name.to_owned()));
    }
    let matches_directory = match directory {
        Some(d) => text::same(d, name),
        None => false,
    };
    if !matches_directory {
        return Err(SkillError::OtherDirectory);
    }
    let length: usize = description.unicode_len();
    if length == 0 || length > 1024 {
        return Err(SkillError::Description);
    }
    Ok(())
}

/// The name and the description of a skill, or why the file is none: those of its head, where it has
/// one, and else the name of its directory and what its first line says.
pub open spec fn described(
    size: u64,
    content: Seq<char>,
    directory: Option<Seq<char>>,
    front: Option<(Seq<char>, Seq<char>)>,
) -> Result<(Seq<char>, Seq<char>), SkillFault> {
    if size > MAX_SKILL_BYTES {
        Err(SkillFault::TooLarge)
    } else {
        match head_of(content) {
            None => Err(SkillFault::Empty),
            Some((initial, followed)) => {
                let found = match front {
                    Some((name, description)) if followed => if has_body(content) {
                        Ok((name, text::trimmed(description)))
                    } else {
                        Err(SkillFault::NoInstructions)
                    },
                    _ => match directory {
                        Some(name) => Ok((name, description_from(initial, name))),
                        None => Err(SkillFault::DirectoryName),
                    },
                };
                match found {
                    Err(f) => Err(f),
                    Ok((name, description)) => match metadata_fault(name, description, directory) {
                        Some(f) => Err(f),
                        None => Ok((name, description)),
                    },
                }
            },
        }
    }
}

/// What the head of a skill says.
pub open spec fn front_view(f: Option<Frontmatter>) -> Option<(Seq<char>, Seq<char>)> {
    match f {
        Some(f) => Some((f.name@, f.description@)),
        None => None,
    }
}

/// Where a file is, and how large it is.
#[derive(Debug)]
pub struct SkillFile {
    pub path: String,
    pub root: String,
    pub directory: Option<String>,
    pub size: u64,
    pub scope: SkillScope,
}

/// Reads a skill: `front` is what its first section says as its head, where it can be read so.
pub fn parse_skill(file: SkillFile, content: String, front: Option<Frontmatter>) -> (r: Result<
    Skill,
    SkillError,
>)
    ensures
        match described(
            file.size,
            content@,
            message::opt_view(file.directory),
            front_view(front),
        ) {
            Ok((name, description)) => r matches Ok(s) && s.name@ == name && s.description@
                == description && s.path == file.path && s.root == file.root && s.scope
                == file.scope && s.content == content && initial_of(content@) == Some(
                s.initial_content@,
            ),
            Err(f) => r matches Err(e) && e@ == f,
        },
{
    if file.size > MAX_SKILL_BYTES {
        return Err(SkillError::TooLarge);
    }
    let all = skill_sections(&without_mark(&content));
    let ghost views = text::views(all@);
    let at: usize = find_said(&all, 0);
    if at == all.len() {
        return Err(SkillError::Empty);
    }
    assert(views[at as int] == all@[at as int]@);
    let initial = text::trim(&all[at]).to_owned();
    let followed = at + 1 < all.len();
    let mut name = String::new();
    let mut description = String::new();
    let mut given = false;
    if followed {
        if let Some(f) = front {
            if find_said(&all, at + 1) == all.len() {
                return Err(SkillError::NoInstructions);
            }
            description = text::trim(&f.description).to_owned();
            name = f.name;
            given = true;
        }
    }
    if !given {
        name = match &file.directory {
            Some(d) => d.clone(),
            None => {
                return Err(SkillError::DirectoryName);
            },
        };
        description = derived_description(&initial, &name);
    }
    let directory = match &file.directory {
        Some(d) => Some(d.as_str()),
        None => None,
    };
    match validate_metadata(&name, &description, directory) {
        Ok(()) => {},
        Err(e) => {
            return Err(e);
        },
    }
    Ok(
        Skill {
            name,
            description,
            path: file.path,
            root: file.root,
            scope: file.scope,
            content,
            initial_content: initial,
        },
    )
}

// ---------------------------------------------------------------------------
// Finding skills

/// A directory that holds the project, or is it.
#[derive(Debug)]
pub struct Ancestor {
    pub path: String,
    /// Whether it is the root of a repository.
    pub repository: bool,
}

/// Where skills are looked for: in the project and in what holds it, up to its repository, in the
/// home directory, and where a person says. The ancestors are the directories from the project on
/// upwards.
pub open spec fn roots_of(
    platform: Platform,
    ancestors: Seq<Ancestor>,
    home: Option<Seq<char>>,
    codex_home: Option<Seq<char>>,
    custom: Seq<Seq<char>>,
) -> Seq<(Seq<char>, SkillScope)> {
    project_roots(platform, ancestors, root_count(ancestors)) + user_roots(platform, home, codex_home) + Seq::new(
        custom.len(),
        |i: int| (custom[i], SkillScope::Custom),
    )
}

/// The first directory at or after `i` that is the root of a repository.
pub open spec fn repository_at(ancestors: Seq<Ancestor>, i: int) -> int
    decreases ancestors.len() - i,
{
    if i >= ancestors.len() {
        ancestors.len() as int
    } else if ancestors[i].repository {
        i
    } else {
        repository_at(ancestors, i + 1)
    }
}

/// How many of the directories skills are looked for in: those up to the repository, or only the
/// project where there is none.
pub open spec fn root_count(ancestors: Seq<Ancestor>) -> int {
    let i = repository_at(ancestors, 0);
    if i < ancestors.len() {
        i + 1
    } else if ancestors.len() > 0 {
        1
    } else {
        0
    }
}

/// Where skills are looked for in the first `n` directories.
pub open spec fn project_roots(platform: Platform, ancestors: Seq<Ancestor>, n: int) -> Seq<
    (Seq<char>, SkillScope),
> {
    Seq::new(
        n as nat,
        |i: int|
            (
                paths::joined(platform, paths::joined(platform, ancestors[i].path@, ".agents"@), "skills"@),
                SkillScope::Project,
            ),
    )
}

/// Where skills of a person are looked for.
pub open spec fn user_roots(
    platform: Platform,
    home: Option<Seq<char>>,
    codex_home: Option<Seq<char>>,
) -> Seq<(Seq<char>, SkillScope)> {
    match home {
        None => Seq::empty(),
        Some(h) => seq![
            (paths::joined(platform, paths::joined(platform, h, ".agents"@), "skills"@), SkillScope::User),
            (
                paths::joined(
                    platform,
                    match codex_home {
                        Some(c) => c,
                        None => paths::joined(platform, h, ".codex"@),
                    },
                    "skills"@,
                ),
                SkillScope::User,
            ),
        ],
    }
}

/// Places with what is found there.
pub open spec fn root_views(v: Seq<(String, SkillScope)>) -> Seq<(Seq<char>, SkillScope)> {
    Seq::new(v.len(), |i: int| (v[i].0@, v[i].1))
}

fn with_root(list: Vec<(String, SkillScope)>, path: String, scope: SkillScope) -> (r: Vec<
    (String, SkillScope),
>)
    ensures
        root_views(r@) == root_views(list@).push((path@, scope)),
{
    let mut r = list;
    r.push((path, scope));
    assert(root_views(r@) == root_views(list@).push((path@, scope)));
    r
}

/// Where skills are looked for.
pub fn discovery_roots(
    platform: Platform,
    ancestors: &Vec<Ancestor>,
    home: Option<&str>,
    codex_home: Option<&str>,
    custom: &Vec<String>,
) -> (r: Vec<(String, SkillScope)>)
    ensures
        root_views(r@) == roots_of(
            platform,
            ancestors@,
            payload::str_view(home),
            payload::str_view(codex_home),
            text::views(custom@),
        ),
{
    let ghost own = text::views(custom@);
    let mut at: usize = 0;
    while at < ancestors.len() && !ancestors[at].repository
        invariant
            at <= ancestors@.len(),
            repository_at(ancestors@, 0) == repository_at(ancestors@, at as int),
        decreases ancestors@.len() - at,
    {
        at += 1;
    }
    let count: usize = if at < ancestors.len() {
        at + 1
    } else if ancestors.len() > 0 {
        1
    } else {
        0
    };
    assert(count as int == root_count(ancestors@));
    let mut r: Vec<(String, SkillScope)> = Vec::new();
    let mut i: usize = 0;
    while i < count
        invariant
            i <= count <= ancestors@.len(),
            root_views(r@) == project_roots(platform, ancestors@, i as int),
        decreases count - i,
    {
        let place = paths::join(platform, &paths::join(platform, &ancestors[i].path, ".agents"), "skills");
        r = with_root(r, place, SkillScope::Project);
        assert(root_views(r@) == project_roots(platform, ancestors@, i + 1));
        i += 1;
    }
    let ghost first = root_views(r@);
    if let Some(h) = home {
        r = with_root(r, paths::join(platform, &paths::join(platform, h, ".agents"), "skills"), SkillScope::User);
        let codex = match codex_home {
            Some(c) => c.to_owned(),
            None => paths::join(platform, h, ".codex"),
        };
        r = with_root(r, paths::join(platform, &codex, "skills"), SkillScope::User);
    }
    let ghost users = user_roots(platform, payload::str_view(home), payload::str_view(codex_home));
    assert(root_views(r@) == first + users);
    let ghost second = root_views(r@);
    let ghost last = Seq::new(own.len(), |i: int| (own[i], SkillScope::Custom));
    let mut i: usize = 0;
    assert(second + last.take(0) == second);
    while i < custom.len()
        invariant
            i <= custom@.len(),
            own == text::views(custom@),
            last == Seq::new(own.len(), |i: int| (own[i], SkillScope::Custom)),
            root_views(r@) == second + last.take(i as int),
        decreases custom@.len() - i,
    {
        assert(own[i as int] == custom@[i as int]@);
        r = with_root(r, custom[i].clone(), SkillScope::Custom);
        assert(root_views(r@) == second + last.take(i + 1));
        i += 1;
    }
    assert(last.take(last.len() as int) == last);
    r
}

// ---------------------------------------------------------------------------
// What a file says as a skill

proof fn lemma_whole_lines(before: Seq<char>, tail: Seq<char>, start: int, from: int)
    requires
        0 <= start <= from <= before.len(),
        before.len() > 0,
        before.last() == '\n',
        sections_from(before, start, from) == seq![before.skip(start)],
    ensures
        sections_from(before + tail, start, from) == sections_from(
            before + tail,
            start,
            before.len() as int,
        ),
    decreases before.len() - from,
{
    let s = before + tail;
    if from < before.len() {
        text::lemma_position_from(before, '\n', from);
        text::lemma_position_from(s, '\n', from);
        let e = text::position_from(before, '\n', from);
        assert(e < before.len()) by {
            if e >= before.len() {
                assert(before[before.len() - 1] == '\n');
            }
        }
        let f = text::position_from(s, '\n', from);
        assert(s[e] == before[e]);
        assert(f <= e);
        assert(f == e) by {
            if f < e {
                assert(s[f] == before[f]);
            }
        }
        let end = line_end(before, from);
        assert(line_end(s, from) == end);
        assert(s.subrange(from, end) == before.subrange(from, end));
        if separates(before.subrange(from, end)) {
            lemma_some_section(before, end, end);
            assert((seq![before.subrange(start, from)] + sections_from(before, end, end)).len()
                >= 2);
        } else {
            lemma_whole_lines(before, tail, start, end);
        }
    }
}

proof fn lemma_some_section(s: Seq<char>, start: int, from: int)
    requires
        0 <= start <= from <= s.len(),
    ensures
        sections_from(s, start, from).len() > 0,
    decreases s.len() - from,
{
    if from < s.len() {
        text::lemma_position_from(s, '\n', from);
        let end = line_end(s, from);
        if !separates(s.subrange(from, end)) {
            lemma_some_section(s, start, end);
        }
    }
}

proof fn lemma_sections_shift(s: Seq<char>, by: int, start: int, from: int)
    requires
        0 <= by <= start <= from <= s.len(),
    ensures
        sections_from(s.skip(by), start - by, from - by) == sections_from(s, start, from),
    decreases s.len() - from,
{
    let t = s.skip(by);
    if from >= s.len() {
        assert(t.subrange(start - by, t.len() as int) == s.subrange(start, s.len() as int));
    } else {
        text::lemma_position_from(s, '\n', from);
        text::lemma_position_from(t, '\n', from - by);
        let e = text::position_from(s, '\n', from);
        let f = text::position_from(t, '\n', from - by);
        assert(f == e - by) by {
            if f < e - by {
                assert(t[f] == s[f + by]);
            } else if f > e - by {
                assert(t[e - by] == s[e]);
            }
        }
        let end = line_end(s, from);
        assert(line_end(t, from - by) == end - by);
        assert(t.subrange(from - by, end - by) == s.subrange(from, end));
        if separates(s.subrange(from, end)) {
            assert(t.subrange(start - by, from - by) == s.subrange(start, from));
            lemma_sections_shift(s, by, end, end);
        } else {
            lemma_sections_shift(s, by, start, end);
        }
    }
}

/// A line of three hyphens, and it alone, ends a section and begins the next; it is part of neither.
pub proof fn three_hyphens_part_sections(before: Seq<char>, rest: Seq<char>)
    requires
        before.len() > 0 ==> before.last() == '\n' && sections(before) == seq![before],
    ensures
        sections(before + "---\n"@ + rest) == seq![before] + sections(rest),
{
    reveal_strlit("---\n");
    reveal_strlit("---");
    let mark = "---\n"@;
    let tail = mark + rest;
    let s = before + mark + rest;
    assert(s == before + tail);
    if before.len() > 0 {
        assert(before.skip(0) == before);
        lemma_whole_lines(before, tail, 0, 0);
    }
    let at = before.len() as int;
    assert(sections(s) == sections_from(s, 0, at));
    assert(s[at] == '-' && s[at + 1] == '-' && s[at + 2] == '-' && s[at + 3] == '\n');
    text::lemma_position_from(s, '\n', at);
    assert(text::position_from(s, '\n', at) == at + 3) by {
        let e = text::position_from(s, '\n', at);
        if e > at + 3 {
            assert(s[at + 3] != '\n');
        }
    }
    assert(line_end(s, at) == at + 4);
    let line = s.subrange(at, at + 4);
    assert(line == mark);
    let f = |c: char| c == '\r' || c == '\n';
    text::lemma_strip_back_at(line, f, 3);
    assert(line.take(3) == "---"@);
    assert(separates(line));
    assert(s.subrange(0, at) == before);
    lemma_sections_shift(s, at + 4, at + 4, at + 4);
    assert(s.skip(at + 4) == rest);
}

/// A text without a line of three hyphens is one section.
pub proof fn one_line_is_one_section(line: Seq<char>)
    requires
        !line.contains('\n'),
        text::strip_back(line, |c: char| c == '\r' || c == '\n') != "---"@,
    ensures
        sections(line) == seq![line],
{
    text::lemma_position_from(line, '\n', 0);
    let e = text::position_from(line, '\n', 0);
    assert(e >= line.len()) by {
        if e < line.len() {
            assert(line.contains(line[e]));
        }
    }
    assert(line.subrange(0, line.len() as int) == line);
    if line.len() > 0 {
        assert(sections_from(line, 0, line.len() as int) == seq![line]);
    }
}

proof fn lemma_first_said(all: Seq<Seq<char>>, from: int)
    requires
        0 <= from <= all.len(),
    ensures
        from <= first_said(all, from) <= all.len(),
        first_said(all, from) < all.len() ==> text::trimmed(all[first_said(all, from)]).len() > 0,
        forall|i: int|
            from <= i < first_said(all, from) ==> text::trimmed(#[trigger] all[i]).len() == 0,
    decreases all.len() - from,
{
    if from < all.len() && text::trimmed(all[from]).len() == 0 {
        lemma_first_said(all, from + 1);
    }
}

/// A skill begins with its first section that is not blank, without white space round it; a file in
/// which every section is blank holds none.
pub proof fn a_skill_begins_with_its_first_words(content: Seq<char>)
    ensures
        ({
            let all = sections(unmarked(content));
            match head_of(content) {
                Some((initial, followed)) => exists|i: int|
                    {
                        &&& 0 <= i < all.len()
                        &&& initial == text::trimmed(#[trigger] all[i])
                        &&& initial.len() > 0
                        &&& followed == (i + 1 < all.len())
                        &&& forall|j: int|
                            0 <= j < i ==> text::trimmed(#[trigger] all[j]).len() == 0
                        &&& has_body(content) <==> exists|k: int|
                            i < k < all.len() && text::trimmed(#[trigger] all[k]).len() > 0
                    },
                None => forall|j: int|
                    0 <= j < all.len() ==> text::trimmed(#[trigger] all[j]).len() == 0,
            }
        }),
        content.len() > 0 && content[0] == '\u{feff}' ==> unmarked(content) == content.skip(1),
        content.len() == 0 || content[0] != '\u{feff}' ==> unmarked(content) == content,
{
    let all = sections(unmarked(content));
    lemma_first_said(all, 0);
    let i = first_said(all, 0);
    if i < all.len() {
        lemma_first_said(all, i + 1);
        let k = first_said(all, i + 1);
        if k < all.len() {
            assert(i < k && text::trimmed(all[k]).len() > 0);
        }
        assert(text::trimmed(all[i]).len() > 0);
    }
}

/// A skill is called and described as its head says, where it has one with instructions behind it, and
/// else as its directory is called and its first words say. In either case it bears the name of its
/// directory.
pub proof fn a_skill_is_what_it_says_it_is(
    size: u64,
    content: Seq<char>,
    directory: Option<Seq<char>>,
    named: Seq<char>,
    about: Seq<char>,
    initial: Seq<char>,
    followed: bool,
)
    requires
        head_of(content) == Some((initial, followed)),
    ensures
        described(size, content, directory, Some((named, about))) matches Ok((name, description))
            ==> {
            &&& size <= 524_288
            &&& directory == Some(name)
            &&& is_skill_name(name)
            &&& 1 <= description.len() <= 1024
            &&& followed ==> name == named && description == text::trimmed(about) && has_body(
                content,
            )
            &&& !followed ==> description == description_from(initial, name)
        },
        described(size, content, directory, None) matches Ok((name, description)) ==> {
            &&& size <= 524_288
            &&& directory == Some(name)
            &&& is_skill_name(name)
            &&& description == description_from(initial, name)
        },
        size > 524_288 ==> described(size, content, directory, Some((named, about))) is Err
            && described(size, content, directory, None) is Err,
        size <= 524_288 && followed && has_body(content) && directory == Some(named)
            && is_skill_name(named) && 1 <= text::trimmed(about).len() <= 1024 ==> described(
            size,
            content,
            directory,
            Some((named, about)),
        ) is Ok,
        size <= 524_288 && directory == Some(named) && is_skill_name(named) && 1
            <= description_from(initial, named).len() <= 1024 ==> described(
            size,
            content,
            directory,
            None,
        ) is Ok,
{
}

/// The name of a skill is made of small ASCII letters, digits and single hyphens between them, and is
/// at most sixty-four characters long.
pub proof fn skill_names_are_plain(name: Seq<char>)
    requires
        is_skill_name(name),
    ensures
        1 <= name.len() <= 64,
        forall|i: int|
            0 <= i < name.len() ==> {
                let n = #[trigger] name[i] as u32;
                97 <= n <= 122 || 48 <= n <= 57 || name[i] == '-'
            },
        name[0] != '-',
        name.last() != '-',
        forall|i: int|
            0 <= i < name.len() - 1 ==> !(#[trigger] name[i] == '-' && name[i + 1] == '-'),
{
    reveal_strlit("-");
    reveal_strlit("--");
    assert('a' as u32 == 97 && 'z' as u32 == 122 && '0' as u32 == 48 && '9' as u32 == 57);
    assert forall|i: int| 0 <= i < name.len() implies {
        let n = #[trigger] name[i] as u32;
        97 <= n <= 122 || 48 <= n <= 57 || name[i] == '-'
    } by {
        assert(is_name_char(name[i]));
    }
    if name[0] == '-' {
        assert(name.subrange(0, 1) == "-"@);
    }
    if name.last() == '-' {
        assert(name.subrange(name.len() - 1, name.len() as int) == "-"@);
    }
    assert forall|i: int| 0 <= i < name.len() - 1 implies !(#[trigger] name[i] == '-' && name[i + 1]
        == '-') by {
        if name[i] == '-' && name[i + 1] == '-' {
            assert(name.subrange(i, i + 2) == "--"@);
            assert(text::occurs_at(name, "--"@, i));
        }
    }
}

/// A skill without a head is described by its first line that says anything, without the marks of a
/// heading.
pub proof fn the_first_line_describes(line: Seq<char>, rest: Seq<char>, name: Seq<char>)
    requires
        !line.contains('\n'),
        line.len() > 0,
        !text::is_white(line[0]),
        !text::is_white(line.last()),
        line[0] != '#',
        line.len() <= 1024,
    ensures
        description_from(line.push('\n') + rest, name) == line,
        description_from(line, name) == line,
{
    assert(line.last() != '\r');
    text::lines_end_at_line_feeds(line, rest);
    text::trimmed_text_stays(line);
    let f = |c: char| c == '#';
    assert(text::strip_front(line, f) == line);
    assert(without_heading(line) == line);
    let a = text::lines(line.push('\n') + rest);
    assert(a[0] == line);
    assert(first_line(a, 0) == Some(line));
    let b = text::lines(line);
    assert(b[0] == line);
    assert(first_line(b, 0) == Some(line));
}

proof fn lemma_repository_at(ancestors: Seq<Ancestor>, i: int)
    requires
        0 <= i <= ancestors.len(),
    ensures
        i <= repository_at(ancestors, i) <= ancestors.len(),
        repository_at(ancestors, i) < ancestors.len() ==> ancestors[repository_at(
            ancestors,
            i,
        )].repository,
        forall|j: int|
            i <= j < repository_at(ancestors, i) ==> !(#[trigger] ancestors[j]).repository,
    decreases ancestors.len() - i,
{
    if i < ancestors.len() && !ancestors[i].repository {
        lemma_repository_at(ancestors, i + 1);
    }
}

/// Skills of a project come first: those of the project itself, then those of each directory that
/// holds it up to the root of its repository, and of no other where there is no repository. Then come
/// those of the person, and at last those of the places that the person names, in their order.
pub proof fn skills_are_looked_for_from_the_project_on(
    platform: Platform,
    ancestors: Seq<Ancestor>,
    home: Option<Seq<char>>,
    codex_home: Option<Seq<char>>,
    custom: Seq<Seq<char>>,
    n: int,
)
    requires
        0 <= n < ancestors.len(),
        ancestors[n].repository || n == 0,
        forall|j: int| 0 <= j < n ==> !(#[trigger] ancestors[j]).repository,
        !ancestors[n].repository ==> forall|j: int|
            0 <= j < ancestors.len() ==> !(#[trigger] ancestors[j]).repository,
    ensures
        ({
            let all = roots_of(platform, ancestors, home, codex_home, custom);
            let own = if home is Some {
                2int
            } else {
                0
            };
            &&& all.len() == n + 1 + own + custom.len()
            &&& forall|i: int|
                #![trigger all[i]]
                0 <= i <= n ==> all[i].1 == SkillScope::Project && all[i].0 == paths::joined(
                    platform,
                    paths::joined(platform, ancestors[i].path@, ".agents"@),
                    "skills"@,
                )
            &&& forall|i: int|
                #![trigger all[i]]
                n < i <= n + own ==> all[i].1 == SkillScope::User
            &&& forall|i: int|
                #![trigger custom[i]]
                0 <= i < custom.len() ==> all[n + 1 + own + i].1 == SkillScope::Custom && all[n + 1
                    + own + i].0 == custom[i]
        }),
{
    lemma_repository_at(ancestors, 0);
    let at = repository_at(ancestors, 0);
    if ancestors[n].repository {
        assert(at <= n);
        if at < n {
            assert(!ancestors[at].repository);
        }
    } else if at < ancestors.len() {
        assert(!ancestors[at].repository);
    }
}

} // verus!
