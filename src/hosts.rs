//! The block-list editor. The hosts file is shared with other programs: the
//! editor marks each line it writes with an ownership marker, reads its
//! entries back as blocks headed by a marked line, and never alters a line
//! it does not own. Each operation here maps the file's current text to the
//! text to write (if any); reading and writing the file is the caller's part.

use vstd::prelude::*;
use crate::text::{
    all_blank, chars_of, contains_seq, is_blank, is_ws, is_ws_char, same_chars, slice_contains,
    str_views, string_of, views,
};

verus! {

/// Why a block-list operation failed, with the operating system's message.
pub enum HostsError {
    ReadError(String),
    WriteError(String),
    PermissionError(String),
}

/// The outcome of a block-list command, with a message for the user.
pub struct HostsResult {
    pub success: bool,
    pub message: String,
    pub data: Option<Vec<String>>,
}

/// Where the hosts file lives on Windows.
pub const WINDOWS_HOSTS_PATH: &'static str = "C:\\Windows\\System32\\drivers\\etc\\hosts";

/// Where the hosts file lives on Linux and macOS.
pub const UNIX_HOSTS_PATH: &'static str = "/etc/hosts";

/// The path of the hosts file, on Windows or else on a Unix system.
pub fn get_hosts_path(windows: bool) -> (r: String)
    ensures
        windows ==> r@ == WINDOWS_HOSTS_PATH@,
        !windows ==> r@ == UNIX_HOSTS_PATH@,
{
    if windows {
        String::from_str(WINDOWS_HOSTS_PATH)
    } else {
        String::from_str(UNIX_HOSTS_PATH)
    }
}

/// The loopback address that blocked names are redirected to: `127.0.0.1`.
pub open spec fn loopback() -> Seq<char> {
    seq!['1', '2', '7', '.', '0', '.', '0', '.', '1']
}

/// The ownership marker: `# Focus Keeper Block`.
pub open spec fn marker() -> Seq<char> {
    seq![
        '#', ' ', 'F', 'o', 'c', 'u', 's', ' ', 'K', 'e', 'e', 'p', 'e', 'r', ' ', 'B', 'l', 'o',
        'c', 'k',
    ]
}

/// The second word of a bare marker line, which names no domain.
pub open spec fn focus_word() -> Seq<char> {
    seq!['F', 'o', 'c', 'u', 's']
}

// ---------------------------------------------------------------- lines

/// One character of the line splitter: the completed lines and the line
/// under way.
pub open spec fn line_step(st: (Seq<Seq<char>>, Seq<char>), c: char) -> (
    Seq<Seq<char>>,
    Seq<char>,
) {
    if c == '\n' {
        (st.0.push(st.1), Seq::empty())
    } else {
        (st.0, st.1.push(c))
    }
}

pub open spec fn line_fold(st: (Seq<Seq<char>>, Seq<char>), s: Seq<char>) -> (
    Seq<Seq<char>>,
    Seq<char>,
)
    decreases s.len(),
{
    if s.len() == 0 {
        st
    } else {
        line_step(line_fold(st, s.drop_last()), s.last())
    }
}

/// The lines of `s`: split at `\n`, each line keeping every other
/// character (a `\r` before the `\n` included, so that writing a line
/// back gives its bytes again), and no empty line after a final `\n`.
pub open spec fn lines_of(s: Seq<char>) -> Seq<Seq<char>> {
    let st = line_fold((Seq::empty(), Seq::empty()), s);
    if st.1.len() == 0 {
        st.0
    } else {
        st.0.push(st.1)
    }
}

// ---------------------------------------------------------------- words

pub open spec fn word_step(st: (Seq<Seq<char>>, Seq<char>), c: char) -> (
    Seq<Seq<char>>,
    Seq<char>,
) {
    if is_ws(c) {
        if st.1.len() > 0 {
            (st.0.push(st.1), Seq::empty())
        } else {
            st
        }
    } else {
        (st.0, st.1.push(c))
    }
}

pub open spec fn word_fold(st: (Seq<Seq<char>>, Seq<char>), s: Seq<char>) -> (
    Seq<Seq<char>>,
    Seq<char>,
)
    decreases s.len(),
{
    if s.len() == 0 {
        st
    } else {
        word_step(word_fold(st, s.drop_last()), s.last())
    }
}

/// The whitespace-separated words of `s`, as `str::split_whitespace` gives them.
pub open spec fn words_of(s: Seq<char>) -> Seq<Seq<char>> {
    let st = word_fold((Seq::empty(), Seq::empty()), s);
    if st.1.len() == 0 {
        st.0
    } else {
        st.0.push(st.1)
    }
}

// ---------------------------------------------------------------- blocks

/// Whether `line` carries the ownership marker.
pub open spec fn is_marked(line: Seq<char>) -> bool {
    contains_seq(line, marker())
}

pub open spec fn is_comment(line: Seq<char>) -> bool {
    line.len() > 0 && line[0] == '#'
}

/// One line of the two-state block scanner: the domains found so far, and
/// whether the scanner is inside an owned block.
pub open spec fn scan_step(st: (Seq<Seq<char>>, bool), line: Seq<char>) -> (Seq<Seq<char>>, bool) {
    let w = words_of(line);
    if is_marked(line) {
        (
            if w.len() >= 2 && w[1] != focus_word() {
                st.0.push(w[1])
            } else {
                st.0
            },
            true,
        )
    } else if st.1 && is_blank(line) {
        (st.0, false)
    } else if st.1 && !is_comment(line) {
        (
            if w.len() >= 2 {
                st.0.push(w[1])
            } else {
                st.0
            },
            true,
        )
    } else {
        st
    }
}

pub open spec fn scan(st: (Seq<Seq<char>>, bool), lines: Seq<Seq<char>>) -> (Seq<Seq<char>>, bool)
    decreases lines.len(),
{
    if lines.len() == 0 {
        st
    } else {
        scan_step(scan(st, lines.drop_last()), lines.last())
    }
}

/// The block list held by the hosts text `content`: a marked line opens an
/// owned block and names its second word (unless that is the marker's own
/// `Focus`); each later line of the block that is neither blank nor a
/// comment names its second word; a blank line closes the block.
pub open spec fn blocked_domains(content: Seq<char>) -> Seq<Seq<char>> {
    scan((Seq::empty(), false), lines_of(content)).0
}

// ---------------------------------------------------------------- edits

/// Whether `line` redirects exactly the domain `d` to the loopback address.
pub open spec fn redirects(line: Seq<char>, d: Seq<char>) -> bool {
    let w = words_of(line);
    w.len() >= 2 && w[0] == loopback() && w[1] == d
}

/// Whether some line of `content` redirects exactly `d`.
pub open spec fn has_redirect(content: Seq<char>, d: Seq<char>) -> bool {
    exists|i: int| 0 <= i < lines_of(content).len() && redirects(#[trigger] lines_of(content)[i], d)
}

/// The line the editor writes to block `d`: `127.0.0.1 d # # Focus Keeper Block`.
pub open spec fn entry_line(d: Seq<char>) -> Seq<char> {
    loopback() + seq![' '] + d + seq![' ', '#', ' '] + marker()
}

/// `c` ending in a newline: one is added unless `c` already ends in one.
pub open spec fn with_newline(c: Seq<char>) -> Seq<char> {
    if c.len() > 0 && c.last() == '\n' {
        c
    } else {
        c.push('\n')
    }
}

/// The text after blocking `d`, or `None` where `d` is redirected already
/// and nothing is to be written.
pub open spec fn added(content: Seq<char>, d: Seq<char>) -> Option<Seq<char>> {
    if has_redirect(content, d) {
        None
    } else {
        Some(with_newline(content) + entry_line(d).push('\n'))
    }
}

/// The domains of `ds` that `existing` does not hold, each once, in the
/// order of their first appearance.
pub open spec fn fresh(ds: Seq<Seq<char>>, existing: Seq<Seq<char>>) -> Seq<Seq<char>>
    decreases ds.len(),
{
    if ds.len() == 0 {
        ds
    } else {
        let f = fresh(ds.drop_last(), existing);
        if existing.contains(ds.last()) || f.contains(ds.last()) {
            f
        } else {
            f.push(ds.last())
        }
    }
}

/// The entry lines for `ds`, each ended by a newline.
pub open spec fn entries(ds: Seq<Seq<char>>) -> Seq<char>
    decreases ds.len(),
{
    if ds.len() == 0 {
        Seq::empty()
    } else {
        entries(ds.drop_last()) + entry_line(ds.last()).push('\n')
    }
}

/// The text after blocking each of `ds` that the block list lacks, or `None`
/// where it lacks none.
pub open spec fn added_many(content: Seq<char>, ds: Seq<Seq<char>>) -> Option<Seq<char>> {
    let f = fresh(ds, blocked_domains(content));
    if f.len() == 0 {
        None
    } else {
        Some(with_newline(content) + entries(f))
    }
}

/// `ls` without the lines that redirect `d`.
pub open spec fn drop_redirects(ls: Seq<Seq<char>>, d: Seq<char>) -> Seq<Seq<char>>
    decreases ls.len(),
{
    if ls.len() == 0 {
        ls
    } else {
        let r = drop_redirects(ls.drop_last(), d);
        if redirects(ls.last(), d) {
            r
        } else {
            r.push(ls.last())
        }
    }
}

/// `ls` without the marked lines.
pub open spec fn drop_marked(ls: Seq<Seq<char>>) -> Seq<Seq<char>>
    decreases ls.len(),
{
    if ls.len() == 0 {
        ls
    } else {
        let r = drop_marked(ls.drop_last());
        if is_marked(ls.last()) {
            r
        } else {
            r.push(ls.last())
        }
    }
}

/// Each line of `ls` followed by a newline.
pub open spec fn joined(ls: Seq<Seq<char>>) -> Seq<char>
    decreases ls.len(),
{
    if ls.len() == 0 {
        Seq::empty()
    } else {
        joined(ls.drop_last()) + ls.last().push('\n')
    }
}

/// The text written for the lines `ls`: each line ended by a newline, and a
/// single newline where no line is left.
pub open spec fn rendered(ls: Seq<Seq<char>>) -> Seq<char> {
    if ls.len() == 0 {
        seq!['\n']
    } else {
        joined(ls)
    }
}

/// The text after unblocking `d`.
pub open spec fn removed(content: Seq<char>, d: Seq<char>) -> Seq<char> {
    rendered(drop_redirects(lines_of(content), d))
}

/// The text after dropping every owned line.
pub open spec fn cleared(content: Seq<char>) -> Seq<char> {
    rendered(drop_marked(lines_of(content)))
}

pub open spec fn opt_view(r: Option<String>) -> Option<Seq<char>> {
    match r {
        Some(s) => Some(s@),
        None => None,
    }
}

// ---------------------------------------------------------------- executable

fn loopback_chars() -> (r: Vec<char>)
    ensures
        r@ == loopback(),
{
    let r = vec!['1', '2', '7', '.', '0', '.', '0', '.', '1'];
    assert(r@ =~= loopback());
    r
}

fn marker_chars() -> (r: Vec<char>)
    ensures
        r@ == marker(),
{
    let r = vec![
        '#', ' ', 'F', 'o', 'c', 'u', 's', ' ', 'K', 'e', 'e', 'p', 'e', 'r', ' ', 'B', 'l', 'o',
        'c', 'k',
    ];
    assert(r@ =~= marker());
    r
}

fn focus_chars() -> (r: Vec<char>)
    ensures
        r@ == focus_word(),
{
    let r = vec!['F', 'o', 'c', 'u', 's'];
    assert(r@ =~= focus_word());
    r
}

/// Splits `s` into its lines.
pub fn split_lines(s: &Vec<char>) -> (r: Vec<Vec<char>>)
    ensures
        views(r@) == lines_of(s@),
{
    let mut out: Vec<Vec<char>> = Vec::new();
    let mut cur: Vec<char> = Vec::new();
    let mut i: usize = 0;
    while i < s.len()
        invariant
            i <= s@.len(),
            (views(out@), cur@) == line_fold((Seq::empty(), Seq::empty()), s@.take(i as int)),
        decreases s@.len() - i,
    {
        assert(s@.take(i + 1).drop_last() =~= s@.take(i as int));
        let c = s[i];
        if c == '\n' {
            let ghost before = out@;
            out.push(cur);
            assert(views(out@) =~= views(before).push(cur@));
            cur = Vec::new();
        } else {
            cur.push(c);
        }
        i = i + 1;
    }
    assert(s@.take(s@.len() as int) =~= s@);
    if cur.len() > 0 {
        let ghost before = out@;
        out.push(cur);
        assert(views(out@) =~= views(before).push(cur@));
    }
    out
}

/// Splits `s` into its whitespace-separated words.
pub fn split_words(s: &Vec<char>) -> (r: Vec<Vec<char>>)
    ensures
        views(r@) == words_of(s@),
{
    let mut out: Vec<Vec<char>> = Vec::new();
    let mut cur: Vec<char> = Vec::new();
    let mut i: usize = 0;
    while i < s.len()
        invariant
            i <= s@.len(),
            (views(out@), cur@) == word_fold((Seq::empty(), Seq::empty()), s@.take(i as int)),
        decreases s@.len() - i,
    {
        assert(s@.take(i + 1).drop_last() =~= s@.take(i as int));
        let c = s[i];
        if is_ws_char(c) {
            if cur.len() > 0 {
                let ghost before = out@;
                out.push(cur);
                assert(views(out@) =~= views(before).push(cur@));
                cur = Vec::new();
            }
        } else {
            cur.push(c);
        }
        i = i + 1;
    }
    assert(s@.take(s@.len() as int) =~= s@);
    if cur.len() > 0 {
        let ghost before = out@;
        out.push(cur);
        assert(views(out@) =~= views(before).push(cur@));
    }
    out
}

/// The domains of the block list held by the hosts text `content`.
pub fn read_blocked_websites(content: &str) -> (r: Vec<String>)
    ensures
        str_views(r@) == blocked_domains(content@),
{
    let chars = chars_of(content);
    let lines = split_lines(&chars);
    let mark = marker_chars();
    let focus_w = focus_chars();
    let mut blocked: Vec<String> = Vec::new();
    let mut in_block = false;
    let mut i: usize = 0;
    while i < lines.len()
        invariant
            i <= lines@.len(),
            views(lines@) == lines_of(content@),
            mark@ == marker(),
            focus_w@ == focus_word(),
            (str_views(blocked@), in_block) == scan(
                (Seq::empty(), false),
                views(lines@).take(i as int),
            ),
        decreases lines@.len() - i,
    {
        assert(views(lines@).take(i + 1).drop_last() =~= views(lines@).take(i as int));
        let line = &lines[i];
        assert(views(lines@).take(i + 1).last() == line@);
        let words = split_words(line);
        let ghost before = blocked@;
        if slice_contains(line, &mark) {
            in_block = true;
            if words.len() >= 2 && !same_chars(&words[1], &focus_w) {
                blocked.push(string_of(&words[1]));
                assert(str_views(blocked@) =~= str_views(before).push(words@[1]@));
            }
        } else if in_block && all_blank(line) {
            in_block = false;
        } else if in_block && !(line.len() > 0 && line[0] == '#') {
            if words.len() >= 2 {
                blocked.push(string_of(&words[1]));
                assert(str_views(blocked@) =~= str_views(before).push(words@[1]@));
            }
        }
        i = i + 1;
    }
    assert(views(lines@).take(lines@.len() as int) =~= views(lines@));
    blocked
}

fn push_all(v: &mut Vec<char>, s: &Vec<char>)
    ensures
        final(v)@ == old(v)@ + s@,
{
    let mut i: usize = 0;
    while i < s.len()
        invariant
            i <= s@.len(),
            v@ == old(v)@ + s@.take(i as int),
        decreases s@.len() - i,
    {
        v.push(s[i]);
        i = i + 1;
        assert(v@ =~= old(v)@ + s@.take(i as int));
    }
    assert(s@.take(s@.len() as int) =~= s@);
}

fn entry_chars(d: &Vec<char>) -> (r: Vec<char>)
    ensures
        r@ == entry_line(d@),
{
    let mut r = loopback_chars();
    r.push(' ');
    push_all(&mut r, d);
    r.push(' ');
    r.push('#');
    r.push(' ');
    push_all(&mut r, &marker_chars());
    assert(r@ =~= entry_line(d@));
    r
}

fn redirects_exec(line: &Vec<char>, d: &Vec<char>, lo: &Vec<char>) -> (r: bool)
    requires
        lo@ == loopback(),
    ensures
        r == redirects(line@, d@),
{
    let words = split_words(line);
    words.len() >= 2 && same_chars(&words[0], lo) && same_chars(&words[1], d)
}

fn ensure_newline(v: &mut Vec<char>)
    ensures
        final(v)@ == with_newline(old(v)@),
{
    if !(v.len() > 0 && v[v.len() - 1] == '\n') {
        v.push('\n');
    }
}

/// The hosts text after blocking `domain`, or `None` where a line of
/// `content` redirects `domain` already and nothing is to be written.
pub fn add_blocked_website(content: &str, domain: &str) -> (r: Option<String>)
    ensures
        opt_view(r) == added(content@, domain@),
{
    let mut chars = chars_of(content);
    let d = chars_of(domain);
    let lines = split_lines(&chars);
    let lo = loopback_chars();
    let mut i: usize = 0;
    while i < lines.len()
        invariant
            i <= lines@.len(),
            views(lines@) == lines_of(content@),
            chars@ == content@,
            d@ == domain@,
            lo@ == loopback(),
            forall|k: int| 0 <= k < i ==> !redirects(#[trigger] lines_of(content@)[k], domain@),
        decreases lines@.len() - i,
    {
        if redirects_exec(&lines[i], &d, &lo) {
            assert(redirects(lines_of(content@)[i as int], domain@));
            return None;
        }
        i = i + 1;
    }
    ensure_newline(&mut chars);
    push_all(&mut chars, &entry_chars(&d));
    chars.push('\n');
    Some(string_of(&chars))
}

fn contains_string(v: &Vec<String>, s: &String) -> (r: bool)
    ensures
        r == str_views(v@).contains(s@),
{
    let mut i: usize = 0;
    while i < v.len()
        invariant
            i <= v@.len(),
            forall|k: int| 0 <= k < i ==> v@[k]@ != s@,
        decreases v@.len() - i,
    {
        if v[i] == *s {
            assert(str_views(v@)[i as int] == s@);
            return true;
        }
        i = i + 1;
    }
    false
}

/// The hosts text after blocking each of `domains` that its block list
/// lacks, all appended in one go; `None` where it lacks none.
pub fn add_blocked_websites(content: &str, domains: &Vec<String>) -> (r: Option<String>)
    ensures
        opt_view(r) == added_many(content@, str_views(domains@)),
{
    let existing = read_blocked_websites(content);
    let mut picked: Vec<String> = Vec::new();
    let mut block: Vec<char> = Vec::new();
    let mut i: usize = 0;
    while i < domains.len()
        invariant
            i <= domains@.len(),
            str_views(existing@) == blocked_domains(content@),
            str_views(picked@) == fresh(str_views(domains@).take(i as int), blocked_domains(content@)),
            block@ == entries(fresh(str_views(domains@).take(i as int), blocked_domains(content@))),
        decreases domains@.len() - i,
    {
        assert(str_views(domains@).take(i + 1).drop_last() =~= str_views(domains@).take(i as int));
        let ghost f = fresh(str_views(domains@).take(i as int), blocked_domains(content@));
        if !contains_string(&existing, &domains[i]) && !contains_string(&picked, &domains[i]) {
            let d = chars_of(domains[i].as_str());
            push_all(&mut block, &entry_chars(&d));
            block.push('\n');
            assert(f.push(domains@[i as int]@).drop_last() =~= f);
            assert(block@ =~= entries(f.push(domains@[i as int]@)));
            let ghost before = picked@;
            picked.push(domains[i].clone());
            assert(str_views(picked@) =~= str_views(before).push(domains@[i as int]@));
        }
        i = i + 1;
    }
    assert(str_views(domains@).take(domains@.len() as int) =~= str_views(domains@));
    if picked.len() == 0 {
        return None;
    }
    let mut chars = chars_of(content);
    ensure_newline(&mut chars);
    push_all(&mut chars, &block);
    Some(string_of(&chars))
}

/// The hosts text after unblocking `domain`: every line that redirects
/// exactly `domain` is dropped, the rest kept in order.
pub fn remove_blocked_website(content: &str, domain: &str) -> (r: String)
    ensures
        r@ == removed(content@, domain@),
{
    let chars = chars_of(content);
    let d = chars_of(domain);
    let lines = split_lines(&chars);
    let lo = loopback_chars();
    let mut out: Vec<char> = Vec::new();
    let mut kept: usize = 0;
    let mut i: usize = 0;
    while i < lines.len()
        invariant
            i <= lines@.len(),
            views(lines@) == lines_of(content@),
            d@ == domain@,
            lo@ == loopback(),
            kept <= i,
            kept as int == drop_redirects(views(lines@).take(i as int), domain@).len(),
            out@ == joined(drop_redirects(views(lines@).take(i as int), domain@)),
        decreases lines@.len() - i,
    {
        assert(views(lines@).take(i + 1).drop_last() =~= views(lines@).take(i as int));
        let ghost r = drop_redirects(views(lines@).take(i as int), domain@);
        if !redirects_exec(&lines[i], &d, &lo) {
            push_all(&mut out, &lines[i]);
            out.push('\n');
            assert(r.push(lines@[i as int]@).drop_last() =~= r);
            assert(out@ =~= joined(r.push(lines@[i as int]@)));
            kept = kept + 1;
        }
        i = i + 1;
    }
    assert(views(lines@).take(lines@.len() as int) =~= views(lines@));
    if kept == 0 {
        out.push('\n');
        assert(out@ =~= seq!['\n']);
    }
    string_of(&out)
}

/// The hosts text after unblocking everything: every marked line is
/// dropped, every other line kept in order.
pub fn clear_all_blocks(content: &str) -> (r: String)
    ensures
        r@ == cleared(content@),
{
    let chars = chars_of(content);
    let lines = split_lines(&chars);
    let mark = marker_chars();
    let mut out: Vec<char> = Vec::new();
    let mut kept: usize = 0;
    let mut i: usize = 0;
    while i < lines.len()
        invariant
            i <= lines@.len(),
            views(lines@) == lines_of(content@),
            mark@ == marker(),
            kept <= i,
            kept as int == drop_marked(views(lines@).take(i as int)).len(),
            out@ == joined(drop_marked(views(lines@).take(i as int))),
        decreases lines@.len() - i,
    {
        assert(views(lines@).take(i + 1).drop_last() =~= views(lines@).take(i as int));
        let ghost r = drop_marked(views(lines@).take(i as int));
        if !slice_contains(&lines[i], &mark) {
            push_all(&mut out, &lines[i]);
            out.push('\n');
            assert(r.push(lines@[i as int]@).drop_last() =~= r);
            assert(out@ =~= joined(r.push(lines@[i as int]@)));
            kept = kept + 1;
        }
        i = i + 1;
    }
    assert(views(lines@).take(lines@.len() as int) =~= views(lines@));
    if kept == 0 {
        out.push('\n');
        assert(out@ =~= seq!['\n']);
    }
    string_of(&out)
}

} // verus!
