//! File paths, as texts whose parts are separated by slashes, and on Windows by backslashes too.
use crate::text;
use vstd::prelude::*;
use vstd::string::*;

verus! {

/// The operating systems that behave in their own way.
#[derive(Clone, Copy, Debug, PartialEq, Eq, Structural)]
pub enum Platform {
    Windows,
    Linux,
    MacOs,
    Other,
}

/// `path` with slashes in place of backslashes.
pub open spec fn with_slashes(path: Seq<char>) -> Seq<char> {
    Seq::new(
        path.len(),
        |i: int|
            if path[i] == '\\' {
                '/'
            } else {
                path[i]
            },
    )
}

/// `path` with slashes in place of backslashes.
pub fn slashed(path: &str) -> (s: String)
    ensures
        s@ == with_slashes(path@),
{
    let v = text::chars_of(path);
    let mut s = String::new();
    let mut i: usize = 0;
    while i < v.len()
        invariant
            i <= v@.len(),
            v@ == path@,
            s@ == with_slashes(path@).take(i as int),
        decreases v@.len() - i,
    {
        let c = v[i];
        if c == '\\' {
            s.push('/');
        } else {
            s.push(c);
        }
        assert(s@ == with_slashes(path@).take(i + 1));
        i += 1;
    }
    s
}

/// A path with its parts separated by slashes alone.
pub open spec fn plain(platform: Platform, path: Seq<char>) -> Seq<char> {
    if platform == Platform::Windows {
        with_slashes(path)
    } else {
        path
    }
}

/// A path with its parts separated by slashes alone.
fn plain_text(platform: Platform, path: &str) -> (s: String)
    ensures
        s@ == plain(platform, path@),
{
    match platform {
        Platform::Windows => slashed(path),
        _ => path.to_owned(),
    }
}

// ---------------------------------------------------------------------------
// Drives and shares

/// Where the part that begins at `i` ends.
pub open spec fn part_end(s: Seq<char>, i: int) -> int
    decreases s.len() - i,
{
    if i >= s.len() {
        s.len() as int
    } else if s[i] == '/' {
        i
    } else {
        part_end(s, i + 1)
    }
}

/// How many characters name the drive, the share or the device that a path of Windows begins with.
pub open spec fn drive_len(s: Seq<char>) -> int {
    if s.len() >= 2 && s[0] == '/' && s[1] == '/' {
        let a = part_end(s, 2);
        let b = part_end(s, a + 1);
        if a == 2 || a >= s.len() || b == a + 1 {
            0
        } else if a == 3 && s[2] == '?' && b == a + 4 && s[a + 1] == 'U' && s[a + 2] == 'N' && s[a
            + 3] == 'C' && b < s.len() {
            let c = part_end(s, b + 1);
            if c >= s.len() {
                c
            } else {
                part_end(s, c + 1)
            }
        } else {
            b
        }
    } else if s.len() >= 2 && (text::is_lower(s[0]) || text::is_upper(s[0])) && s[1] == ':' {
        2
    } else {
        0
    }
}

/// How many characters of a path name what it lies on: a drive or a share of Windows.
pub open spec fn prefix_len(platform: Platform, path: Seq<char>) -> int {
    if platform == Platform::Windows {
        drive_len(with_slashes(path))
    } else {
        0
    }
}

fn end_of_part(v: &Vec<char>, i: usize) -> (r: usize)
    requires
        i <= v@.len(),
    ensures
        r as int == part_end(v@, i as int),
        i <= r <= v@.len(),
{
    let mut at: usize = i;
    while at < v.len() && v[at] != '/'
        invariant
            i <= at <= v@.len(),
            part_end(v@, i as int) == part_end(v@, at as int),
        decreases v@.len() - at,
    {
        at += 1;
    }
    at
}

fn drive_length(v: &Vec<char>) -> (r: usize)
    ensures
        r as int == drive_len(v@),
        r <= v@.len(),
{
    let count: usize = v.len();
    if count >= 2 && v[0] == '/' && v[1] == '/' {
        let a: usize = end_of_part(v, 2);
        if a == 2 || a >= count {
            return 0;
        }
        let b: usize = end_of_part(v, a + 1);
        if b == a + 1 {
            return 0;
        }
        if a == 3 && v[2] == '?' && b - a == 4 && v[a + 1] == 'U' && v[a + 2] == 'N' && v[a + 3]
            == 'C' && b < count {
            let c: usize = end_of_part(v, b + 1);
            if c >= count {
                return c;
            }
            return end_of_part(v, c + 1);
        }
        return b;
    }
    if count >= 2 && (text::lower(v[0]) || text::upper(v[0])) && v[1] == ':' {
        2
    } else {
        0
    }
}

fn prefix_length(platform: Platform, path: &str) -> (r: usize)
    ensures
        r as int == prefix_len(platform, path@),
        r <= path@.len(),
{
    match platform {
        Platform::Windows => {
            let v = text::chars_of(&slashed(path));
            drive_length(&v)
        },
        _ => 0,
    }
}

/// A path behind the drive or share that it lies on, with slashes alone.
pub open spec fn tail(platform: Platform, path: Seq<char>) -> Seq<char> {
    plain(platform, path).skip(prefix_len(platform, path))
}

fn tail_text(platform: Platform, path: &str) -> (s: String)
    ensures
        s@ == tail(platform, path@),
{
    let all = plain_text(platform, path);
    let n: usize = prefix_length(platform, path);
    let count: usize = all.as_str().unicode_len();
    proof {
        assert(plain(platform, path@).len() == path@.len());
    }
    let rest = all.as_str().substring_char(n, count);
    assert(rest@ == tail(platform, path@));
    rest.to_owned()
}

/// Whether a path begins at the root of what it lies on. A share has no place but its root.
pub open spec fn rooted(platform: Platform, path: Seq<char>) -> bool {
    prefix_len(platform, path) > 2 || text::begins_with(tail(platform, path), "/"@)
}

fn is_rooted(platform: Platform, path: &str) -> (r: bool)
    ensures
        r == rooted(platform, path@),
{
    prefix_length(platform, path) > 2 || text::starts_with(&tail_text(platform, path), "/")
}

/// Whether a path says by itself where it leads: on Windows it needs a drive or a share for that.
pub open spec fn absolute(platform: Platform, path: Seq<char>) -> bool {
    rooted(platform, path) && (platform == Platform::Windows ==> prefix_len(platform, path) > 0)
}

/// Whether a path says by itself where it leads.
pub fn is_absolute(platform: Platform, path: &str) -> (r: bool)
    ensures
        r == absolute(platform, path@),
{
    match platform {
        Platform::Windows => prefix_length(platform, path) > 0 && is_rooted(platform, path),
        _ => is_rooted(platform, path),
    }
}

// ---------------------------------------------------------------------------
// Joining

/// Whether a path of Windows is one that is taken word by word, so that nothing in it may lead back.
pub open spec fn verbatim(path: Seq<char>) -> bool {
    text::begins_with(path, "\\\\?\\"@)
}

/// Where the first `n` of some parts lead from a place: a dot stays there, and two dots lead back.
pub open spec fn led(place: Seq<Seq<char>>, more: Seq<Seq<char>>, n: nat) -> Seq<Seq<char>>
    decreases n,
{
    if n == 0 {
        place
    } else {
        let before = led(place, more, (n - 1) as nat);
        if more[n - 1] == "."@ {
            before
        } else if more[n - 1] == ".."@ {
            if before.len() > 0 {
                before.drop_last()
            } else {
                before
            }
        } else {
            before.push(more[n - 1])
        }
    }
}

/// The first `n` parts below a drive or share.
pub open spec fn spelled(prefix: Seq<char>, parts: Seq<Seq<char>>, n: nat) -> Seq<char>
    decreases n,
{
    if n == 0 {
        prefix
    } else {
        spelled(prefix, parts, (n - 1) as nat) + "\\"@ + parts[n - 1]
    }
}

/// `path` seen from a place that is taken word by word.
pub open spec fn joined_verbatim(base: Seq<char>, path: Seq<char>) -> Seq<char> {
    let place = if rooted(Platform::Windows, path) {
        Seq::empty()
    } else {
        parts(Platform::Windows, base)
    };
    let more = parts(Platform::Windows, path);
    let all = led(place, more, more.len());
    let prefix = base.take(prefix_len(Platform::Windows, base));
    if all.len() == 0 {
        prefix + "\\"@
    } else {
        spelled(prefix, all, all.len())
    }
}

/// Whether nothing has to stand between a place and what is seen from it.
pub open spec fn is_open(platform: Platform, base: Seq<char>) -> bool {
    ||| base.len() == 0
    ||| text::finishes_with(plain(platform, base), "/"@)
    ||| base.len() == 2 && prefix_len(platform, base) == 2
}

/// `path` seen from `base`.
pub open spec fn joined(platform: Platform, base: Seq<char>, path: Seq<char>) -> Seq<char> {
    if absolute(platform, path) || prefix_len(platform, path) > 0 {
        path
    } else if platform == Platform::Windows && verbatim(base) && path.len() > 0 {
        joined_verbatim(base, path)
    } else if rooted(platform, path) {
        base.take(prefix_len(platform, base)) + path
    } else if is_open(platform, base) {
        base + path
    } else if platform == Platform::Windows {
        base + "\\"@ + path
    } else {
        base + "/"@ + path
    }
}

fn join_verbatim(base: &str, path: &str) -> (r: String)
    ensures
        r@ == joined_verbatim(base@, path@),
{
    let more = parts_of(Platform::Windows, path);
    let mut all = if is_rooted(Platform::Windows, path) {
        text::no_texts()
    } else {
        parts_of(Platform::Windows, base)
    };
    let ghost place = text::views(all@);
    let ghost asked = text::views(more@);
    let mut i: usize = 0;
    while i < more.len()
        invariant
            i <= more@.len(),
            asked == text::views(more@),
            text::views(all@) == led(place, asked, i as nat),
        decreases more@.len() - i,
    {
        assert(asked[i as int] == more@[i as int]@);
        let ghost before = text::views(all@);
        if text::same(&more[i], ".") {
        } else if text::same(&more[i], "..") {
            if all.len() > 0 {
                let _ = all.pop();
                assert(text::views(all@) == before.drop_last());
            }
        } else {
            all = text::with(all, &more[i]);
        }
        i += 1;
    }
    let n: usize = prefix_length(Platform::Windows, base);
    let mut r = base.substring_char(0, n).to_owned();
    let ghost prefix = r@;
    assert(prefix == base@.take(n as int));
    if all.len() == 0 {
        return text::cat2(&r, "\\");
    }
    let ghost views = text::views(all@);
    let mut i: usize = 0;
    while i < all.len()
        invariant
            i <= all@.len(),
            views == text::views(all@),
            r@ == spelled(prefix, views, i as nat),
        decreases all@.len() - i,
    {
        assert(views[i as int] == all@[i as int]@);
        r = text::cat3(&r, "\\", &all[i]);
        i += 1;
    }
    r
}

/// `path` seen from `base`.
pub fn join(platform: Platform, base: &str, path: &str) -> (r: String)
    ensures
        r@ == joined(platform, base@, path@),
{
    if is_absolute(platform, path) || prefix_length(platform, path) > 0 {
        return path.to_owned();
    }
    let windows = match platform {
        Platform::Windows => true,
        _ => false,
    };
    if windows && text::starts_with(base, "\\\\?\\") && !path.is_empty() {
        return join_verbatim(base, path);
    }
    let n: usize = prefix_length(platform, base);
    if is_rooted(platform, path) {
        return text::cat2(base.substring_char(0, n), path);
    }
    if base.is_empty() || text::ends_with(&plain_text(platform, base), "/") || (n == 2
        && base.unicode_len() == 2) {
        text::cat2(base, path)
    } else if windows {
        text::cat3(base, "\\", path)
    } else {
        text::cat3(base, "/", path)
    }
}

// ---------------------------------------------------------------------------
// Names

/// Whether a part of a path leads nowhere else.
pub open spec fn is_idle(part: Seq<char>) -> bool {
    part.len() == 0 || part == "."@
}

fn idle(part: &str) -> (r: bool)
    ensures
        r == is_idle(part@),
{
    part.is_empty() || text::same(part, ".")
}

/// The number of parts up to the last one that leads somewhere, among the first `n`.
pub open spec fn last_part(parts: Seq<Seq<char>>, n: nat) -> nat
    decreases n,
{
    if n == 0 || !is_idle(parts[n - 1]) {
        n
    } else {
        last_part(parts, (n - 1) as nat)
    }
}

/// The last part of a path, where it is a name.
pub open spec fn name_of(platform: Platform, path: Seq<char>) -> Option<Seq<char>> {
    let parts = text::pieces(tail(platform, path), '/');
    let n = last_part(parts, parts.len());
    if n == 0 || parts[n - 1] == ".."@ {
        None
    } else {
        Some(parts[n - 1])
    }
}

/// The last part of a path, where it is a name.
pub fn file_name(platform: Platform, path: &str) -> (r: Option<String>)
    ensures
        match r {
            Some(name) => name_of(platform, path@) == Some(name@),
            None => name_of(platform, path@) is None,
        },
{
    let parts = text::split(&tail_text(platform, path), '/');
    let ghost views = text::views(parts@);
    let mut n: usize = parts.len();
    while n > 0 && idle(&parts[n - 1])
        invariant
            n <= parts@.len(),
            views == text::views(parts@),
            last_part(views, views.len()) == last_part(views, n as nat),
        decreases n,
    {
        n -= 1;
    }
    if n == 0 || text::same(&parts[n - 1], "..") {
        None
    } else {
        Some(parts[n - 1].clone())
    }
}

/// Whether a path is one name, which lies where it is seen from.
pub open spec fn is_single_name(platform: Platform, path: Seq<char>) -> bool {
    let parts = text::pieces(tail(platform, path), '/');
    prefix_len(platform, path) == 0 && !is_idle(parts[0]) && parts[0] != ".."@ && forall|i: int|
        0 < i < parts.len() ==> is_idle(#[trigger] parts[i])
}

/// Whether a path is one name.
pub fn single_name(platform: Platform, path: &str) -> (r: bool)
    ensures
        r == is_single_name(platform, path@),
{
    if prefix_length(platform, path) > 0 {
        return false;
    }
    let parts = text::split(&tail_text(platform, path), '/');
    let ghost views = text::views(parts@);
    assert(views[0] == parts@[0]@);
    if idle(&parts[0]) || text::same(&parts[0], "..") {
        return false;
    }
    let mut i: usize = 1;
    while i < parts.len()
        invariant
            1 <= i <= parts@.len(),
            views == text::views(parts@),
            views == text::pieces(tail(platform, path@), '/'),
            prefix_len(platform, path@) == 0,
            forall|j: int| 0 < j < i ==> is_idle(#[trigger] views[j]),
        decreases parts@.len() - i,
    {
        assert(views[i as int] == parts@[i as int]@);
        if !idle(&parts[i]) {
            return false;
        }
        i += 1;
    }
    true
}

/// The position of the last `c` among the first `n` characters, where there is one.
pub open spec fn last_position(s: Seq<char>, c: char, n: nat) -> Option<int>
    decreases n,
{
    if n == 0 {
        None
    } else if s[n - 1] == c {
        Some(n - 1)
    } else {
        last_position(s, c, (n - 1) as nat)
    }
}

/// The name of a file without its last ending; a dot at its start begins no ending.
pub open spec fn stem_of(name: Seq<char>) -> Seq<char> {
    match last_position(name, '.', name.len()) {
        Some(i) => if i == 0 {
            name
        } else {
            name.take(i)
        },
        None => name,
    }
}

/// The name of a file without its last ending.
pub fn stem<'a>(name: &'a str) -> (r: &'a str)
    ensures
        r@ == stem_of(name@),
{
    let v = text::chars_of(name);
    let mut n: usize = v.len();
    while n > 0 && v[n - 1] != '.'
        invariant
            n <= v@.len(),
            v@ == name@,
            last_position(name@, '.', name@.len()) == last_position(name@, '.', n as nat),
        decreases n,
    {
        n -= 1;
    }
    if n <= 1 {
        return name;
    }
    name.substring_char(0, n - 1)
}

/// The stem of the last part of a path, in small letters; nothing where the last part is no name.
pub open spec fn small_stem(platform: Platform, path: Seq<char>) -> Seq<char> {
    match name_of(platform, path) {
        Some(name) => text::ascii_lower(stem_of(name)),
        None => Seq::empty(),
    }
}

/// The stem of the last part of a path, in small letters.
pub fn lower_stem(platform: Platform, path: &str) -> (s: String)
    ensures
        s@ == small_stem(platform, path@),
{
    match file_name(platform, path) {
        Some(name) => text::to_ascii_lowercase(stem(&name)),
        None => String::new(),
    }
}

/// `path` as it is seen from `root`, where it lies below it, with slashes alone.
pub open spec fn relative_to(platform: Platform, root: Seq<char>, path: Seq<char>) -> Seq<char> {
    let base = text::strip_back(plain(platform, root), |c: char| c == '/');
    let whole = plain(platform, path);
    if whole == plain(platform, root) || whole == base {
        Seq::empty()
    } else if text::begins_with(whole, base + "/"@) {
        whole.skip(base.len() as int + 1)
    } else {
        whole
    }
}

/// `path` as it is seen from `root`, where it lies below it.
pub fn relative(platform: Platform, root: &str, path: &str) -> (r: String)
    ensures
        r@ == relative_to(platform, root@, path@),
{
    let top = plain_text(platform, root);
    let whole = plain_text(platform, path);
    let base = text::trim_end_of(&top, '/', '/');
    proof {
        let f = |c: char| c == '/' || c == '/';
        let g = |c: char| c == '/';
        assert(f =~= g);
        reveal_strlit("/");
    }
    if text::same(&whole, &top) || text::same(&whole, base) {
        return String::new();
    }
    match text::strip_prefix(&whole, &text::cat2(base, "/")) {
        Some(rest) => rest.to_owned(),
        None => whole,
    }
}

/// The parts of a path that lead somewhere, from the `i`-th piece on. A dot that a path begins with
/// counts.
pub open spec fn parts_from(pieces: Seq<Seq<char>>, i: int) -> Seq<Seq<char>>
    decreases pieces.len() - i,
{
    if i >= pieces.len() {
        Seq::empty()
    } else if pieces[i].len() == 0 || (i > 0 && pieces[i] == "."@) {
        parts_from(pieces, i + 1)
    } else {
        seq![pieces[i]] + parts_from(pieces, i + 1)
    }
}

/// The parts of a path that lead somewhere, behind the drive or share that it lies on.
pub open spec fn parts(platform: Platform, path: Seq<char>) -> Seq<Seq<char>> {
    parts_from(text::pieces(tail(platform, path), '/'), 0)
}

/// The drive or share that a path lies on; of a drive, both letters are one.
pub open spec fn drive(platform: Platform, path: Seq<char>) -> Seq<char> {
    let prefix = plain(platform, path).take(prefix_len(platform, path));
    if prefix.len() == 2 {
        text::ascii_lower(prefix)
    } else {
        prefix
    }
}

fn drive_of(platform: Platform, path: &str) -> (s: String)
    ensures
        s@ == drive(platform, path@),
{
    let n: usize = prefix_length(platform, path);
    let all = plain_text(platform, path);
    assert(plain(platform, path@).len() == path@.len());
    let prefix = all.as_str().substring_char(0, n);
    assert(prefix@ == plain(platform, path@).take(n as int));
    if n == 2 {
        text::to_ascii_lowercase(prefix)
    } else {
        prefix.to_owned()
    }
}

/// Whether a path is `root` or lies below it.
pub open spec fn lies_in(platform: Platform, root: Seq<char>, path: Seq<char>) -> bool {
    &&& drive(platform, root) == drive(platform, path)
    &&& rooted(platform, root) == rooted(platform, path)
    &&& parts(platform, root).is_prefix_of(parts(platform, path))
}

fn parts_of(platform: Platform, path: &str) -> (r: Vec<String>)
    ensures
        text::views(r@) == parts(platform, path@),
{
    let all = text::split(&tail_text(platform, path), '/');
    let ghost pieces = text::views(all@);
    let mut r = text::no_texts();
    let mut i: usize = 0;
    assert(text::views(r@) + parts_from(pieces, 0) == parts_from(pieces, 0));
    while i < all.len()
        invariant
            i <= all@.len(),
            pieces == text::views(all@),
            text::views(r@) + parts_from(pieces, i as int) == parts_from(pieces, 0),
        decreases all@.len() - i,
    {
        assert(pieces[i as int] == all@[i as int]@);
        if !all[i].as_str().is_empty() && !(i > 0 && text::same(&all[i], ".")) {
            let ghost before = text::views(r@);
            let ghost p = pieces[i as int];
            let ghost more = parts_from(pieces, i + 1);
            r = text::with(r, &all[i]);
            assert(before + (seq![p] + more) == before.push(p) + more);
        }
        i += 1;
    }
    assert(text::views(r@) + Seq::<Seq<char>>::empty() == text::views(r@));
    r
}

/// Whether a path says more than a name: it has several parts, of which the drive or share and the root
/// are each one.
pub open spec fn says_where(platform: Platform, path: Seq<char>) -> bool {
    let drives: int = if prefix_len(platform, path) > 0 {
        1
    } else {
        0
    };
    let roots: int = if rooted(platform, path) {
        1
    } else {
        0
    };
    drives + roots + parts(platform, path).len() > 1
}

/// Whether a path says more than a name.
pub fn names_a_place(platform: Platform, path: &str) -> (r: bool)
    ensures
        r == says_where(platform, path@),
{
    let p = parts_of(platform, path);
    assert(parts(platform, path@).len() == p@.len());
    let on_drive = prefix_length(platform, path) > 0;
    let from_root = is_rooted(platform, path);
    p.len() > 1 || (p.len() == 1 && (on_drive || from_root)) || (on_drive && from_root)
}

/// Whether a path is `root` or lies below it.
pub fn is_below(platform: Platform, root: &str, path: &str) -> (r: bool)
    ensures
        r == lies_in(platform, root@, path@),
{
    if is_rooted(platform, root) != is_rooted(platform, path) || !text::same(
        &drive_of(platform, root),
        &drive_of(platform, path),
    ) {
        return false;
    }
    let a = parts_of(platform, root);
    let b = parts_of(platform, path);
    let ghost x = text::views(a@);
    let ghost y = text::views(b@);
    if a.len() > b.len() {
        return false;
    }
    let mut i: usize = 0;
    while i < a.len()
        invariant
            i <= a@.len() <= b@.len(),
            x == text::views(a@),
            y == text::views(b@),
            x == parts(platform, root@),
            y == parts(platform, path@),
            rooted(platform, root@) == rooted(platform, path@),
            drive(platform, root@) == drive(platform, path@),
            forall|j: int| 0 <= j < i ==> #[trigger] x[j] == y[j],
        decreases a@.len() - i,
    {
        assert(x[i as int] == a@[i as int]@);
        assert(y[i as int] == b@[i as int]@);
        if !text::same(&a[i], &b[i]) {
            assert(x[i as int] != y.subrange(0, x.len() as int)[i as int]);
            return false;
        }
        i += 1;
    }
    assert(x == y.subrange(0, x.len() as int));
    true
}

// ---------------------------------------------------------------------------
// Laws
proof fn lemma_no_drive(platform: Platform, path: Seq<char>)
    requires
        platform != Platform::Windows,
    ensures
        prefix_len(platform, path) == 0,
        tail(platform, path) == path,
        plain(platform, path) == path,
{
    assert(path.skip(0) == path);
}

proof fn lemma_one_char(s: Seq<char>)
    ensures
        text::begins_with(s, "/"@) <==> s.len() > 0 && s[0] == '/',
        text::finishes_with(s, "/"@) <==> s.len() > 0 && s.last() == '/',
        "/"@ == seq!['/'],
{
    reveal_strlit("/");
    assert("/"@ == seq!['/']);
    if s.len() > 0 {
        assert(s.subrange(0, 1) == seq![s[0]]);
        assert(s.subrange(s.len() - 1, s.len() as int) == seq![s.last()]);
        assert(seq![s[0]][0] == s[0] && seq![s.last()][0] == s.last() && seq!['/'][0] == '/');
    }
}

/// But on Windows, a path that begins with a slash leads from anywhere to the same place; any other is
/// seen from where one is, with one slash between.
pub proof fn a_path_is_seen_from_where_one_is(platform: Platform, base: Seq<char>, path: Seq<char>)
    requires
        platform != Platform::Windows,
    ensures
        path.len() > 0 && path[0] == '/' ==> joined(platform, base, path) == path,
        !(path.len() > 0 && path[0] == '/') && base.len() > 0 && base.last() != '/' ==> joined(
            platform,
            base,
            path,
        ) == base + seq!['/'] + path,
        !(path.len() > 0 && path[0] == '/') && (base.len() == 0 || base.last() == '/') ==> joined(
            platform,
            base,
            path,
        ) == base + path,
        absolute(platform, path) <==> path.len() > 0 && path[0] == '/',
{
    lemma_no_drive(platform, path);
    lemma_no_drive(platform, base);
    lemma_one_char(path);
    lemma_one_char(base);
}

/// On Windows, a path with a drive leads from anywhere to the same place; a name is seen from where
/// one is.
pub proof fn a_drive_says_where_a_path_leads(base: Seq<char>, path: Seq<char>)
    ensures
        path.len() >= 2 && path[1] == ':' && (text::is_lower(path[0]) || text::is_upper(path[0]))
            ==> joined(Platform::Windows, base, path) == path,
        path.len() >= 3 && path[1] == ':' && (text::is_lower(path[0]) || text::is_upper(path[0])) && (
        path[2] == '\\' || path[2] == '/') ==> absolute(Platform::Windows, path),
        prefix_len(Platform::Windows, path) == 0 ==> !absolute(Platform::Windows, path),
        prefix_len(Platform::Windows, path) == 0 && !rooted(Platform::Windows, path) && !verbatim(
            base,
        ) && !is_open(Platform::Windows, base) ==> joined(Platform::Windows, base, path) == base
            + "\\"@ + path,
{
    let s = with_slashes(path);
    if path.len() >= 2 && path[1] == ':' && (text::is_lower(path[0]) || text::is_upper(path[0])) {
        assert(path[0] != '\\' && path[0] != '/');
        assert(s[0] == path[0] && s[1] == ':');
        assert(prefix_len(Platform::Windows, path) == 2);
        if path.len() >= 3 && (path[2] == '\\' || path[2] == '/') {
            assert(s[2] == '/');
            let t = tail(Platform::Windows, path);
            assert(t == s.skip(2));
            assert(t[0] == '/');
            lemma_one_char(t);
        }
    }
}

proof fn lemma_last_position(s: Seq<char>, c: char, n: nat)
    requires
        n <= s.len(),
    ensures
        match last_position(s, c, n) {
            Some(i) => 0 <= i < n && s[i] == c && forall|k: int| i < k < n ==> (#[trigger] s[k]) != c,
            None => forall|k: int| 0 <= k < n ==> (#[trigger] s[k]) != c,
        },
    decreases n,
{
    if n > 0 && s[n - 1] != c {
        lemma_last_position(s, c, (n - 1) as nat);
    }
}

/// The stem of a name is what stands before its last dot; a name without a dot, or with one at its
/// start alone, is its own stem.
pub proof fn the_stem_stands_before_the_last_dot(stem: Seq<char>, ending: Seq<char>)
    requires
        !ending.contains('.'),
    ensures
        stem.len() > 0 ==> stem_of(stem + seq!['.'] + ending) == stem,
        stem_of(seq!['.'] + ending) == seq!['.'] + ending,
        stem_of(ending) == ending,
{
    let a = stem + seq!['.'] + ending;
    lemma_last_position(a, '.', a.len());
    assert(a[stem.len() as int] == '.');
    if let Some(i) = last_position(a, '.', a.len()) {
        if i > stem.len() {
            assert(a[i] == ending[i - stem.len() - 1]);
            assert(ending.contains(a[i]));
        }
        if i < stem.len() {
            assert(a[stem.len() as int] != '.');
        }
        assert(a.take(stem.len() as int) == stem);
    }
    let b = seq!['.'] + ending;
    lemma_last_position(b, '.', b.len());
    assert(b[0] == '.');
    if let Some(i) = last_position(b, '.', b.len()) {
        if i > 0 {
            assert(b[i] == ending[i - 1]);
            assert(ending.contains(b[i]));
        }
    }
    lemma_last_position(ending, '.', ending.len());
    if let Some(i) = last_position(ending, '.', ending.len()) {
        assert(ending.contains(ending[i]));
    }
}

proof fn lemma_split(a: Seq<char>, b: Seq<char>)
    ensures
        text::pieces(a + seq!['/'] + b, '/') == text::pieces(a, '/') + text::pieces(b, '/'),
    decreases a.len(),
{
    if a.contains('/') {
        let k = choose|k: int| 0 <= k < a.len() && a[k] == '/';
        let i = first_slash(a, 0);
        lemma_first_slash(a, 0, k);
        let piece = a.take(i);
        let rest = a.skip(i + 1);
        assert(!piece.contains('/'));
        assert(a == piece.push('/') + rest);
        text::texts_are_split_at_each_occurrence(piece, '/', rest);
        lemma_split(rest, b);
        assert(a + seq!['/'] + b == piece.push('/') + (rest + seq!['/'] + b));
        text::texts_are_split_at_each_occurrence(piece, '/', rest + seq!['/'] + b);
        assert(seq![piece] + (text::pieces(rest, '/') + text::pieces(b, '/')) == seq![piece]
            + text::pieces(rest, '/') + text::pieces(b, '/'));
    } else {
        text::texts_are_split_at_each_occurrence(a, '/', b);
        assert(a + seq!['/'] + b == a.push('/') + b);
    }
}

spec fn first_slash(s: Seq<char>, i: int) -> int
    decreases s.len() - i,
{
    if i >= s.len() || s[i] == '/' {
        i
    } else {
        first_slash(s, i + 1)
    }
}

proof fn lemma_first_slash(s: Seq<char>, i: int, k: int)
    requires
        0 <= i <= k < s.len(),
        s[k] == '/',
    ensures
        i <= first_slash(s, i) <= k,
        s[first_slash(s, i)] == '/',
        forall|j: int| i <= j < first_slash(s, i) ==> (#[trigger] s[j]) != '/',
    decreases k - i,
{
    if s[i] != '/' {
        lemma_first_slash(s, i + 1, k);
    }
}

/// But on Windows, the name of a path is what stands behind its last slash, where that is a name.
pub proof fn the_name_stands_behind_the_last_slash(
    platform: Platform,
    place: Seq<char>,
    name: Seq<char>,
)
    requires
        platform != Platform::Windows,
        !name.contains('/'),
        name.len() > 0,
        name != "."@,
        name != ".."@,
    ensures
        name_of(platform, place + seq!['/'] + name) == Some(name),
        name_of(platform, name) == Some(name),
        is_single_name(platform, name),
        place.len() > 0 && !place.contains('/') && place != "."@ ==> !is_single_name(
            platform,
            place + seq!['/'] + name,
        ),
{
    let path = place + seq!['/'] + name;
    lemma_no_drive(platform, path);
    lemma_no_drive(platform, name);
    lemma_split(place, name);
    text::texts_are_split_at_each_occurrence(name, '/', Seq::empty());
    let parts = text::pieces(path, '/');
    assert(parts == text::pieces(place, '/').push(name)) by {
        assert(text::pieces(place, '/') + seq![name] == text::pieces(place, '/').push(name));
    }
    assert(parts[parts.len() - 1] == name);
    let own = text::pieces(name, '/');
    assert(own[0] == name && own.len() == 1);
    if place.len() > 0 && !place.contains('/') && place != "."@ {
        text::texts_are_split_at_each_occurrence(place, '/', Seq::empty());
        assert(parts.len() == 2 && parts[1] == name);
        assert(!is_idle(parts[1]));
    }
}

proof fn lemma_parts_grow(a: Seq<Seq<char>>, b: Seq<Seq<char>>, i: int)
    requires
        0 <= i <= a.len(),
    ensures
        parts_from(a, i).is_prefix_of(parts_from(a + b, i)),
    decreases a.len() - i,
{
    if i < a.len() {
        assert((a + b)[i] == a[i]);
        lemma_parts_grow(a, b, i + 1);
        let x = parts_from(a, i + 1);
        let y = parts_from(a + b, i + 1);
        if !(a[i].len() == 0 || (i > 0 && a[i] == "."@)) {
            assert(seq![a[i]] + x == parts_from(a, i));
            assert(seq![a[i]] + y == parts_from(a + b, i));
            assert((seq![a[i]] + y).take((seq![a[i]] + x).len() as int) == seq![a[i]] + x) by {
                assert(y.take(x.len() as int) == x);
                assert forall|k: int| 0 <= k < x.len() + 1 implies (seq![a[i]] + y)[k] == (seq![a[i]]
                    + x)[k] by {
                    if k > 0 {
                        assert(y.take(x.len() as int)[k - 1] == x[k - 1]);
                    }
                }
            }
        }
    }
}

/// A place lies in itself, and, but on Windows, everything behind a slash behind it lies in it.
pub proof fn what_is_seen_from_a_place_lies_in_it(
    platform: Platform,
    place: Seq<char>,
    more: Seq<char>,
)
    ensures
        lies_in(platform, place, place),
        platform != Platform::Windows && place.len() > 0 ==> lies_in(
            platform,
            place,
            place + seq!['/'] + more,
        ),
{
    if platform != Platform::Windows && place.len() > 0 {
        let path = place + seq!['/'] + more;
        lemma_no_drive(platform, path);
        lemma_no_drive(platform, place);
        lemma_one_char(place);
        lemma_one_char(path);
        assert(path[0] == place[0]);
        lemma_split(place, more);
        lemma_parts_grow(text::pieces(place, '/'), text::pieces(more, '/'), 0);
        assert(path.take(0) == place.take(0));
    }
}

/// What lies in a place lies in every place that holds it.
pub proof fn places_lie_in_each_other(platform: Platform, a: Seq<char>, b: Seq<char>, c: Seq<char>)
    requires
        lies_in(platform, a, b),
        lies_in(platform, b, c),
    ensures
        lies_in(platform, a, c),
{
    let x = parts(platform, a);
    let y = parts(platform, b);
    let z = parts(platform, c);
    assert(z.take(x.len() as int) == x) by {
        assert forall|k: int| 0 <= k < x.len() implies z[k] == x[k] by {
            assert(y.take(x.len() as int)[k] == x[k]);
            assert(z.take(y.len() as int)[k] == y[k]);
        }
    }
}

/// But on Windows, what lies below a root is named from there, without the root and the slash.
pub proof fn paths_are_named_from_their_root(platform: Platform, root: Seq<char>, more: Seq<char>)
    requires
        platform != Platform::Windows,
        root.len() > 0 ==> root.last() != '/',
    ensures
        relative_to(platform, root, root + seq!['/'] + more) == more,
        relative_to(platform, root, root).len() == 0,
{
    let path = root + seq!['/'] + more;
    lemma_no_drive(platform, root);
    lemma_no_drive(platform, path);
    lemma_one_char(path);
    let p = |c: char| c == '/';
    let n = text::lemma_back_stripped(root, p);
    if n < root.len() {
        assert(p(root[root.len() - 1]));
    }
    assert(root.take(root.len() as int) == root);
    let base = text::strip_back(root, p);
    assert(base == root);
    assert(path.subrange(0, (root + seq!['/']).len() as int) == root + seq!['/']);
    assert(path.skip(root.len() as int + 1) == more);
    assert(path.len() > root.len());
}

/// A dot stays where one is, two dots lead back, and a name leads on.
pub proof fn names_lead_on_and_dots_back(
    place: Seq<Seq<char>>,
    more: Seq<Seq<char>>,
    part: Seq<char>,
)
    ensures
        ({
            let before = led(place, more, more.len());
            let now = led(place, more.push(part), more.len() + 1);
            &&& part == "."@ ==> now == before
            &&& part == ".."@ && before.len() > 0 ==> now == before.take(before.len() - 1)
            &&& part == ".."@ && before.len() == 0 ==> now == before
            &&& part != "."@ && part != ".."@ ==> now == before.push(part)
        }),
        led(place, Seq::empty(), 0) == place,
{
    lemma_led(place, more, part, more.len());
    reveal_strlit(".");
    reveal_strlit("..");
    assert("."@.len() == 1 && ".."@.len() == 2);
    let before = led(place, more, more.len());
    if before.len() > 0 {
        assert(before.drop_last() == before.take(before.len() - 1));
    }
}

proof fn lemma_led(place: Seq<Seq<char>>, more: Seq<Seq<char>>, part: Seq<char>, n: nat)
    requires
        n <= more.len(),
    ensures
        led(place, more.push(part), n) == led(place, more, n),
    decreases n,
{
    if n > 0 {
        lemma_led(place, more, part, (n - 1) as nat);
    }
}

} // verus!
