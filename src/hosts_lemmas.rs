//! What the block-list editor guarantees across calls: adding twice writes
//! nothing the second time, adding many then listing gives back the old
//! list together with the new domains, and the supporting facts about how
//! the hosts text splits into lines and words.

use vstd::prelude::*;
use crate::hosts::{
    added, added_many, blocked_domains, cleared, drop_marked, drop_redirects, entries, joined,
    removed, rendered, entry_line, focus_word, fresh, has_redirect,
    is_comment, is_marked, line_fold, lines_of, loopback, marker, redirects, scan, scan_step,
    with_newline, word_fold, words_of,
};
use crate::text::{contains_seq, is_blank, is_ws, occurs_at};

verus! {

/// A domain the editor can write and read back: not empty, free of
/// whitespace, and not the marker's own second word.
pub open spec fn valid_domain(d: Seq<char>) -> bool {
    &&& d.len() > 0
    &&& forall|i: int| 0 <= i < d.len() ==> !is_ws(#[trigger] d[i])
    &&& d != focus_word()
}

/// The hosts text once the result `r` of an edit has been written over `c`.
pub open spec fn written(c: Seq<char>, r: Option<Seq<char>>) -> Seq<char> {
    match r {
        Some(t) => t,
        None => c,
    }
}

pub open spec fn no_newline(s: Seq<char>) -> bool {
    forall|i: int| 0 <= i < s.len() ==> #[trigger] s[i] != '\n'
}

pub open spec fn no_ws(s: Seq<char>) -> bool {
    forall|i: int| 0 <= i < s.len() ==> !is_ws(#[trigger] s[i])
}

// ---------------------------------------------------------------- lines

proof fn lemma_line_fold_append(
    st: (Seq<Seq<char>>, Seq<char>),
    a: Seq<char>,
    b: Seq<char>,
)
    ensures
        line_fold(st, a + b) == line_fold(line_fold(st, a), b),
    decreases b.len(),
{
    if b.len() == 0 {
        assert(a + b =~= a);
    } else {
        lemma_line_fold_append(st, a, b.drop_last());
        assert((a + b).drop_last() =~= a + b.drop_last());
        assert((a + b).last() == b.last());
    }
}

proof fn lemma_line_fold_plain(st: (Seq<Seq<char>>, Seq<char>), s: Seq<char>)
    requires
        no_newline(s),
    ensures
        line_fold(st, s) == (st.0, st.1 + s),
    decreases s.len(),
{
    if s.len() == 0 {
        assert(st.1 + s =~= st.1);
    } else {
        lemma_line_fold_plain(st, s.drop_last());
        assert((st.1 + s.drop_last()).push(s.last()) =~= st.1 + s);
    }
}

proof fn lemma_entry_shape(d: Seq<char>)
    requires
        valid_domain(d),
    ensures
        no_newline(entry_line(d)),
        entry_line(d).len() > 0,
        entry_line(d).last() == 'k',
        is_marked(entry_line(d)),
{
    let e = entry_line(d);
    assert forall|i: int| 0 <= i < e.len() implies #[trigger] e[i] != '\n' by {
        if 10 <= i < 10 + d.len() {
            assert(e[i] == d[i - 10]);
        }
    }
    let at = e.len() - marker().len();
    assert(e.subrange(at, at + marker().len()) =~= marker());
    assert(occurs_at(e, marker(), at));
}

/// The entry lines for the domains `f`, in order.
pub open spec fn entry_lines(f: Seq<Seq<char>>) -> Seq<Seq<char>>
    decreases f.len(),
{
    if f.len() == 0 {
        Seq::empty()
    } else {
        entry_lines(f.drop_last()).push(entry_line(f.last()))
    }
}

proof fn lemma_fold_line(x: Seq<Seq<char>>, e: Seq<char>)
    requires
        no_newline(e),
    ensures
        line_fold((x, Seq::empty()), e.push('\n')) == (x.push(e), Seq::<char>::empty()),
{
    assert(e.push('\n').drop_last() =~= e);
    lemma_line_fold_plain((x, Seq::empty()), e);
    assert(Seq::<char>::empty() + e =~= e);
}

proof fn lemma_fold_entry(x: Seq<Seq<char>>, d: Seq<char>)
    requires
        valid_domain(d),
    ensures
        line_fold((x, Seq::empty()), entry_line(d).push('\n')) == (x.push(entry_line(d)), Seq::<char>::empty()),
{
    lemma_entry_shape(d);
    lemma_fold_line(x, entry_line(d));
}

/// Folding the entry lines of `f` onto completed lines `ls` appends them.
proof fn lemma_entries_lines(ls: Seq<Seq<char>>, f: Seq<Seq<char>>)
    requires
        forall|i: int| 0 <= i < f.len() ==> valid_domain(#[trigger] f[i]),
    ensures
        line_fold((ls, Seq::empty()), entries(f)) == (ls + entry_lines(f), Seq::<char>::empty()),
    decreases f.len(),
{
    if f.len() == 0 {
        assert(entries(f) =~= Seq::<char>::empty());
        assert(ls + entry_lines(f) =~= ls);
    } else {
        let g = f.drop_last();
        assert forall|i: int| 0 <= i < g.len() implies valid_domain(#[trigger] g[i]) by {
            assert(g[i] == f[i]);
        }
        lemma_entries_lines(ls, g);
        assert(valid_domain(f[f.len() - 1]));
        lemma_line_fold_append((ls, Seq::empty()), entries(g), entry_line(f.last()).push('\n'));
        lemma_fold_entry(ls + entry_lines(g), f.last());
        assert((ls + entry_lines(g)).push(entry_line(f.last())) =~= ls + entry_lines(f));
    }
}

// ---------------------------------------------------------------- words

proof fn lemma_word_fold_append(
    st: (Seq<Seq<char>>, Seq<char>),
    a: Seq<char>,
    b: Seq<char>,
)
    ensures
        word_fold(st, a + b) == word_fold(word_fold(st, a), b),
    decreases b.len(),
{
    if b.len() == 0 {
        assert(a + b =~= a);
    } else {
        lemma_word_fold_append(st, a, b.drop_last());
        assert((a + b).drop_last() =~= a + b.drop_last());
        assert((a + b).last() == b.last());
    }
}

proof fn lemma_word_fold_plain(st: (Seq<Seq<char>>, Seq<char>), s: Seq<char>)
    requires
        no_ws(s),
    ensures
        word_fold(st, s) == (st.0, st.1 + s),
    decreases s.len(),
{
    if s.len() == 0 {
        assert(st.1 + s =~= st.1);
    } else {
        lemma_word_fold_plain(st, s.drop_last());
        assert((st.1 + s.drop_last()).push(s.last()) =~= st.1 + s);
    }
}

proof fn lemma_word_fold_prefix(st: (Seq<Seq<char>>, Seq<char>), s: Seq<char>)
    ensures
        word_fold(st, s).0.len() >= st.0.len(),
        forall|i: int| 0 <= i < st.0.len() ==> #[trigger] word_fold(st, s).0[i] == st.0[i],
    decreases s.len(),
{
    if s.len() > 0 {
        lemma_word_fold_prefix(st, s.drop_last());
    }
}

proof fn lemma_word_fold_space(st: (Seq<Seq<char>>, Seq<char>))
    requires
        st.1.len() > 0,
    ensures
        word_fold(st, seq![' ']) == (st.0.push(st.1), Seq::<char>::empty()),
{
    assert(seq![' '].drop_last() =~= Seq::<char>::empty());
    assert(seq![' '].last() == ' ');
    assert(is_ws(' '));
    assert(word_fold(st, Seq::<char>::empty()) == st);
}

/// The entry line for `d` has the loopback address and `d` as its first words.
proof fn lemma_entry_words(d: Seq<char>)
    requires
        valid_domain(d),
    ensures
        redirects(entry_line(d), d),
{
    let init = (Seq::<Seq<char>>::empty(), Seq::<char>::empty());
    let a = loopback();
    let sp = seq![' '];
    let rest = seq!['#', ' '] + marker();
    assert(entry_line(d) =~= (((a + sp) + d) + sp) + rest);
    assert(no_ws(a));
    lemma_word_fold_append(init, ((a + sp) + d) + sp, rest);
    lemma_word_fold_append(init, (a + sp) + d, sp);
    lemma_word_fold_append(init, a + sp, d);
    lemma_word_fold_append(init, a, sp);
    lemma_word_fold_plain(init, a);
    assert(Seq::<char>::empty() + a =~= a);
    lemma_word_fold_space((Seq::empty(), a));
    let s1 = (Seq::<Seq<char>>::empty().push(a), Seq::<char>::empty());
    lemma_word_fold_plain(s1, d);
    assert(Seq::<char>::empty() + d =~= d);
    lemma_word_fold_space((s1.0, d));
    let s2 = (s1.0.push(d), Seq::<char>::empty());
    lemma_word_fold_prefix(s2, rest);
    let fin = word_fold(s2, rest);
    assert(fin.0[0] == a && fin.0[1] == d);
    if fin.1.len() > 0 {
        assert(fin.0.push(fin.1)[0] == a && fin.0.push(fin.1)[1] == d);
    }
}

// ---------------------------------------------------------------- scanning

proof fn lemma_scan_append(st: (Seq<Seq<char>>, bool), a: Seq<Seq<char>>, b: Seq<Seq<char>>)
    ensures
        scan(st, a + b) == scan(scan(st, a), b),
    decreases b.len(),
{
    if b.len() == 0 {
        assert(a + b =~= a);
    } else {
        lemma_scan_append(st, a, b.drop_last());
        assert((a + b).drop_last() =~= a + b.drop_last());
        assert((a + b).last() == b.last());
    }
}

proof fn lemma_scan_push(st: (Seq<Seq<char>>, bool), a: Seq<Seq<char>>, l: Seq<char>)
    ensures
        scan(st, a.push(l)) == scan_step(scan(st, a), l),
{
    assert(a.push(l).drop_last() =~= a);
}

/// Scanning entry lines names their domains, whatever the scanner's state.
proof fn lemma_scan_entries(st: (Seq<Seq<char>>, bool), f: Seq<Seq<char>>)
    requires
        forall|i: int| 0 <= i < f.len() ==> valid_domain(#[trigger] f[i]),
    ensures
        scan(st, entry_lines(f)).0 == st.0 + f,
    decreases f.len(),
{
    if f.len() == 0 {
        assert(st.0 + f =~= st.0);
    } else {
        let g = f.drop_last();
        assert forall|i: int| 0 <= i < g.len() implies valid_domain(#[trigger] g[i]) by {
            assert(g[i] == f[i]);
        }
        lemma_scan_entries(st, g);
        let d = f.last();
        assert(valid_domain(f[f.len() - 1]));
        lemma_entry_shape(d);
        lemma_entry_words(d);
        lemma_scan_push(st, entry_lines(g), entry_line(d));
        assert((st.0 + g).push(d) =~= st.0 + f);
    }
}

/// Before appending, the editor ends the text with a newline; the lines
/// this leaves scan exactly as the lines of `c` itself.
proof fn lemma_newline_prefix(c: Seq<char>)
    ensures
        line_fold((Seq::empty(), Seq::empty()), with_newline(c)).1 == Seq::<char>::empty(),
        scan((Seq::empty(), false), line_fold((Seq::empty(), Seq::empty()), with_newline(c)).0)
            == scan((Seq::empty(), false), lines_of(c)),
{
    let init = (Seq::<Seq<char>>::empty(), Seq::<char>::empty());
    let st0 = (Seq::<Seq<char>>::empty(), false);
    let fc = line_fold(init, c);
    if !(c.len() > 0 && c.last() == '\n') {
        let w = c.push('\n');
        assert(w.drop_last() =~= c);
        if fc.1.len() == 0 {
            if c.len() > 0 {
                assert(fc.1.len() > 0);
            }
            assert(c.len() == 0);
            assert(fc.0 == Seq::<Seq<char>>::empty());
            lemma_scan_push(st0, fc.0, fc.1);
            assert(!contains_seq(Seq::<char>::empty(), marker()));
        }
    }
}

// ---------------------------------------------------------------- laws

/// Adding a domain that a first add has just blocked writes nothing: the
/// second add finds the domain redirected already.
pub proof fn lemma_add_idempotent(c: Seq<char>, d: Seq<char>)
    requires
        valid_domain(d),
    ensures
        added(written(c, added(c, d)), d) is None,
{
    if !has_redirect(c, d) {
        let init = (Seq::<Seq<char>>::empty(), Seq::<char>::empty());
        let w = with_newline(c);
        let n = w + entry_line(d).push('\n');
        lemma_line_fold_append(init, w, entry_line(d).push('\n'));
        lemma_newline_prefix(c);
        let fw = line_fold(init, w).0;
        lemma_fold_entry(fw, d);
        assert(lines_of(n) == fw.push(entry_line(d)));
        lemma_entry_words(d);
        assert(lines_of(n)[fw.len() as int] == entry_line(d));
        assert(has_redirect(n, d));
    }
}

proof fn lemma_fresh_contains(ds: Seq<Seq<char>>, ex: Seq<Seq<char>>)
    ensures
        forall|x: Seq<char>| #[trigger] fresh(ds, ex).contains(x) <==> ds.contains(x) && !ex.contains(x),
    decreases ds.len(),
{
    if ds.len() > 0 {
        let g = ds.drop_last();
        lemma_fresh_contains(g, ex);
        assert forall|x: Seq<char>| #[trigger] fresh(ds, ex).contains(x) <==> ds.contains(x) && !ex.contains(x) by {
            let fg = fresh(g, ex);
            if ds.contains(x) && !ex.contains(x) {
                let j = choose|j: int| 0 <= j < ds.len() && ds[j] == x;
                if j < g.len() {
                    assert(g[j] == x);
                    assert(g.contains(x));
                    assert(fg.contains(x));
                    let k = choose|k: int| 0 <= k < fg.len() && fg[k] == x;
                    if !ex.contains(ds.last()) {
                        assert(fg.push(ds.last())[k] == x);
                    }
                } else {
                    assert(fg.push(ds.last())[fg.len() as int] == x);
                }
            }
            if fresh(ds, ex).contains(x) {
                let k = choose|k: int| 0 <= k < fresh(ds, ex).len() && fresh(ds, ex)[k] == x;
                if k < fg.len() {
                    assert(fg[k] == x);
                    assert(fg.contains(x));
                    assert(g.contains(x));
                    let j = choose|j: int| 0 <= j < g.len() && g[j] == x;
                    assert(ds[j] == g[j]);
                } else {
                    assert(ds[ds.len() - 1] == x);
                }
            }
        }
    }
}

proof fn lemma_concat_contains(a: Seq<Seq<char>>, b: Seq<Seq<char>>, x: Seq<char>)
    ensures
        (a + b).contains(x) <==> a.contains(x) || b.contains(x),
{
    if a.contains(x) {
        let i = choose|i: int| 0 <= i < a.len() && a[i] == x;
        assert((a + b)[i] == x);
    }
    if b.contains(x) {
        let i = choose|i: int| 0 <= i < b.len() && b[i] == x;
        assert((a + b)[a.len() + i] == x);
    }
    if (a + b).contains(x) {
        let i = choose|i: int| 0 <= i < (a + b).len() && (a + b)[i] == x;
        if i < a.len() {
            assert(a[i] == x);
        } else {
            assert(b[i - a.len()] == x);
        }
    }
}

proof fn lemma_fresh_distinct(ds: Seq<Seq<char>>, ex: Seq<Seq<char>>)
    ensures
        fresh(ds, ex).no_duplicates(),
    decreases ds.len(),
{
    if ds.len() > 0 {
        let g = ds.drop_last();
        lemma_fresh_distinct(g, ex);
        let f = fresh(g, ex);
        let x = ds.last();
        if !(ex.contains(x) || f.contains(x)) {
            let fp = f.push(x);
            assert forall|i: int, j: int| 0 <= i < fp.len() && 0 <= j < fp.len() && i != j implies fp[i] != fp[j] by {
                if i < f.len() && j < f.len() {
                    assert(fp[i] == f[i] && fp[j] == f[j]);
                } else if i < f.len() {
                    assert(fp[i] == f[i]);
                } else {
                    assert(fp[j] == f[j]);
                }
            }
        }
    }
}

/// Adding many domains at once, then listing, gives the earlier list
/// followed by the new domains not already in it, each once (however often
/// it was given), in order.
pub proof fn lemma_add_many_list(c: Seq<char>, s: Seq<Seq<char>>)
    requires
        forall|i: int| 0 <= i < s.len() ==> valid_domain(#[trigger] s[i]),
    ensures
        blocked_domains(written(c, added_many(c, s))) == blocked_domains(c) + fresh(
            s,
            blocked_domains(c),
        ),
        fresh(s, blocked_domains(c)).no_duplicates(),
        forall|x: Seq<char>| #[trigger] fresh(s, blocked_domains(c)).contains(x) <==> s.contains(x) && !blocked_domains(c).contains(x),
{
    lemma_fresh_distinct(s, blocked_domains(c));
    let b = blocked_domains(c);
    let f = fresh(s, b);
    lemma_fresh_contains(s, b);
    if f.len() == 0 {
        assert(b + f =~= b);
    } else {
        assert forall|i: int| 0 <= i < f.len() implies valid_domain(#[trigger] f[i]) by {
            assert(f.contains(f[i]));
            let j = choose|j: int| 0 <= j < s.len() && s[j] == f[i];
        }
        let init = (Seq::<Seq<char>>::empty(), Seq::<char>::empty());
        let st0 = (Seq::<Seq<char>>::empty(), false);
        let w = with_newline(c);
        let n = w + entries(f);
        lemma_line_fold_append(init, w, entries(f));
        lemma_newline_prefix(c);
        let fw = line_fold(init, w).0;
        lemma_entries_lines(fw, f);
        assert(lines_of(n) == fw + entry_lines(f));
        lemma_scan_append(st0, fw, entry_lines(f));
        lemma_scan_entries(scan(st0, fw), f);
    }
}

/// Adding a set of domains, then listing, gives exactly the earlier list
/// together with those domains; from a text with no entries, exactly them.
pub proof fn lemma_add_many_round_trip(c: Seq<char>, s: Seq<Seq<char>>)
    requires
        forall|i: int| 0 <= i < s.len() ==> valid_domain(#[trigger] s[i]),
    ensures
        forall|x: Seq<char>|
            #[trigger] blocked_domains(written(c, added_many(c, s))).contains(x) <==> blocked_domains(
                c,
            ).contains(x) || s.contains(x),
{
    let b = blocked_domains(c);
    lemma_add_many_list(c, s);
    lemma_fresh_contains(s, b);
    assert forall|x: Seq<char>|
        #[trigger] blocked_domains(written(c, added_many(c, s))).contains(x) <==> b.contains(x)
            || s.contains(x) by {
        lemma_concat_contains(b, fresh(s, b), x);
    }
}

// ---------------------------------------------------------------- writing lines back

proof fn lemma_fold_any_line(x: Seq<Seq<char>>, e: Seq<char>)
    requires
        no_newline(e),
    ensures
        line_fold((x, Seq::empty()), e.push('\n')) == (x.push(e), Seq::<char>::empty()),
{
    assert(e.push('\n').drop_last() =~= e);
    lemma_line_fold_plain((x, Seq::empty()), e);
    assert(Seq::<char>::empty() + e =~= e);
}

/// Reading back lines written out one per line gives them again.
proof fn lemma_joined_lines(ls: Seq<Seq<char>>)
    requires
        forall|i: int| 0 <= i < ls.len() ==> no_newline(#[trigger] ls[i]),
    ensures
        line_fold((Seq::empty(), Seq::empty()), joined(ls)) == (ls, Seq::<char>::empty()),
        lines_of(joined(ls)) == ls,
    decreases ls.len(),
{
    let init = (Seq::<Seq<char>>::empty(), Seq::<char>::empty());
    if ls.len() > 0 {
        let g = ls.drop_last();
        assert forall|i: int| 0 <= i < g.len() implies no_newline(#[trigger] g[i]) by {
            assert(g[i] == ls[i]);
        }
        lemma_joined_lines(g);
        assert(no_newline(ls[ls.len() - 1]));
        lemma_line_fold_append(init, joined(g), ls.last().push('\n'));
        lemma_fold_any_line(g, ls.last());
        assert(g.push(ls.last()) =~= ls);
    }
}

proof fn lemma_fold_lines_plain(st: (Seq<Seq<char>>, Seq<char>), s: Seq<char>)
    requires
        forall|i: int| 0 <= i < st.0.len() ==> no_newline(#[trigger] st.0[i]),
        no_newline(st.1),
    ensures
        forall|i: int| 0 <= i < line_fold(st, s).0.len() ==> no_newline(#[trigger] line_fold(st, s).0[i]),
        no_newline(line_fold(st, s).1),
    decreases s.len(),
{
    if s.len() > 0 {
        lemma_fold_lines_plain(st, s.drop_last());
        let p = line_fold(st, s.drop_last());
        if s.last() == '\n' {
            let l = p.1;
            assert forall|k: int| 0 <= k < l.len() implies #[trigger] l[k] != '\n' by {
                assert(l[k] == p.1[k]);
            }
            assert forall|i: int| 0 <= i < p.0.push(l).len() implies no_newline(#[trigger] p.0.push(l)[i]) by {
                if i < p.0.len() {
                    assert(p.0.push(l)[i] == p.0[i]);
                }
            }
        } else {
            assert forall|k: int| 0 <= k < p.1.push(s.last()).len() implies #[trigger] p.1.push(s.last())[k] != '\n' by {
                if k < p.1.len() {
                    assert(p.1.push(s.last())[k] == p.1[k]);
                }
            }
        }
    }
}

/// No line of a text holds a newline.
proof fn lemma_lines_plain(c: Seq<char>)
    ensures
        forall|i: int| 0 <= i < lines_of(c).len() ==> no_newline(#[trigger] lines_of(c)[i]),
{
    let init = (Seq::<Seq<char>>::empty(), Seq::<char>::empty());
    lemma_fold_lines_plain(init, c);
    let f = line_fold(init, c);
    if f.1.len() > 0 {
        assert forall|i: int| 0 <= i < f.0.push(f.1).len() implies no_newline(#[trigger] f.0.push(f.1)[i]) by {
            if i < f.0.len() {
                assert(f.0.push(f.1)[i] == f.0[i]);
            }
        }
    }
}

proof fn lemma_drop_marked_members(ls: Seq<Seq<char>>)
    ensures
        forall|i: int| 0 <= i < drop_marked(ls).len() ==> !is_marked(#[trigger] drop_marked(ls)[i]) && ls.contains(drop_marked(ls)[i]),
    decreases ls.len(),
{
    if ls.len() > 0 {
        let g = ls.drop_last();
        lemma_drop_marked_members(g);
        assert forall|i: int| 0 <= i < drop_marked(ls).len() implies !is_marked(#[trigger] drop_marked(ls)[i]) && ls.contains(drop_marked(ls)[i]) by {
            if i < drop_marked(g).len() {
                assert(drop_marked(ls)[i] == drop_marked(g)[i]);
                let k = choose|k: int| 0 <= k < g.len() && g[k] == drop_marked(g)[i];
                assert(ls[k] == g[k]);
            } else {
                assert(ls[ls.len() - 1] == drop_marked(ls)[i]);
            }
        }
    }
}

/// Clearing drops exactly the owned (marked) lines: what is written is
/// every other line, byte for byte and in order, each followed by a
/// newline (a single newline where none is left), and reading it back
/// finds no owned line and exactly those lines again.
pub proof fn lemma_clear_isolation(c: Seq<char>)
    ensures
        drop_marked(lines_of(c)).len() > 0 ==> cleared(c) == joined(drop_marked(lines_of(c))),
        drop_marked(lines_of(c)).len() > 0 ==> lines_of(cleared(c)) == drop_marked(lines_of(c)),
        drop_marked(lines_of(c)).len() == 0 ==> cleared(c) == seq!['\n'],
        forall|i: int| 0 <= i < lines_of(cleared(c)).len() ==> !is_marked(#[trigger] lines_of(cleared(c))[i]),
{
    let ls = lines_of(c);
    let f = drop_marked(ls);
    lemma_lines_plain(c);
    lemma_drop_marked_members(ls);
    if f.len() > 0 {
        assert forall|i: int| 0 <= i < f.len() implies no_newline(#[trigger] f[i]) by {
            let k = choose|k: int| 0 <= k < ls.len() && ls[k] == f[i];
        }
        lemma_joined_lines(f);
    } else {
        lemma_newline_line();
    }
}

proof fn lemma_newline_line()
    ensures
        lines_of(seq!['\n']) == seq![Seq::<char>::empty()],
        !is_marked(Seq::<char>::empty()),
{
    let init = (Seq::<Seq<char>>::empty(), Seq::<char>::empty());
    assert(seq!['\n'].drop_last() =~= Seq::<char>::empty());
    assert(seq!['\n'].last() == '\n');
    assert(line_fold(init, Seq::<char>::empty()) == init);
    assert(lines_of(seq!['\n']) =~= seq![Seq::<char>::empty()]);
    assert(!contains_seq(Seq::<char>::empty(), marker()));
}

proof fn lemma_drop_marked_unmarked(ls: Seq<Seq<char>>)
    requires
        forall|i: int| 0 <= i < ls.len() ==> !is_marked(#[trigger] ls[i]),
    ensures
        drop_marked(ls) == ls,
    decreases ls.len(),
{
    if ls.len() > 0 {
        let g = ls.drop_last();
        assert forall|i: int| 0 <= i < g.len() implies !is_marked(#[trigger] g[i]) by {
            assert(g[i] == ls[i]);
        }
        lemma_drop_marked_unmarked(g);
        assert(!is_marked(ls[ls.len() - 1]));
        assert(g.push(ls.last()) =~= ls);
    }
}

/// Clearing twice writes the same text as clearing once.
pub proof fn lemma_clear_idempotent(c: Seq<char>)
    ensures
        cleared(cleared(c)) == cleared(c),
{
    lemma_clear_isolation(c);
    lemma_clear_isolation(cleared(c));
    lemma_drop_marked_unmarked(lines_of(cleared(c)));
    let f = drop_marked(lines_of(c));
    if f.len() == 0 {
        lemma_newline_line();
        let e = seq![Seq::<char>::empty()];
        assert(e.drop_last() =~= Seq::<Seq<char>>::empty());
        assert(e.last() == Seq::<char>::empty());
        assert(joined(Seq::<Seq<char>>::empty()) == Seq::<char>::empty());
        assert(Seq::<char>::empty() + Seq::<char>::empty().push('\n') =~= seq!['\n']);
        assert(joined(e) =~= seq!['\n']);
    }
}

// ---------------------------------------------------------------- removal

/// A line that the removal of `d1` drops, or one that neither is owned
/// nor redirects `d2`.
pub open spec fn kept_apart(l: Seq<char>, d1: Seq<char>, d2: Seq<char>) -> bool {
    redirects(l, d1) || (!is_marked(l) && !redirects(l, d2))
}

pub open spec fn all_kept_apart(ls: Seq<Seq<char>>, d1: Seq<char>, d2: Seq<char>) -> bool {
    forall|i: int| 0 <= i < ls.len() ==> kept_apart(#[trigger] ls[i], d1, d2)
}

/// The lines left after ending a text with a newline keep every property
/// that holds of each line of the text.
proof fn lemma_newline_kept_apart(t: Seq<char>, d1: Seq<char>, d2: Seq<char>)
    requires
        all_kept_apart(lines_of(t), d1, d2),
    ensures
        all_kept_apart(line_fold((Seq::empty(), Seq::empty()), with_newline(t)).0, d1, d2),
        forall|i: int|
            0 <= i < line_fold((Seq::empty(), Seq::empty()), with_newline(t)).0.len() ==> no_newline(
                #[trigger] line_fold((Seq::empty(), Seq::empty()), with_newline(t)).0[i],
            ),
{
    let init = (Seq::<Seq<char>>::empty(), Seq::<char>::empty());
    let fc = line_fold(init, t);
    lemma_fold_lines_plain(init, with_newline(t));
    if !(t.len() > 0 && t.last() == '\n') {
        let w = t.push('\n');
        assert(w.drop_last() =~= t);
        let g = fc.0.push(fc.1);
        assert(line_fold(init, w).0 == g);
        if fc.1.len() == 0 {
            assert(!contains_seq(Seq::<char>::empty(), marker()));
            assert(words_of(Seq::<char>::empty()) =~= Seq::<Seq<char>>::empty());
            assert forall|i: int| 0 <= i < g.len() implies kept_apart(#[trigger] g[i], d1, d2) by {
                if i < fc.0.len() {
                    assert(g[i] == fc.0[i]);
                    assert(lines_of(t)[i] == fc.0[i]);
                }
            }
        } else {
            assert forall|i: int| 0 <= i < g.len() implies kept_apart(#[trigger] g[i], d1, d2) by {
                if i < fc.0.len() {
                    assert(g[i] == fc.0[i]);
                    assert(lines_of(t)[i] == fc.0[i]);
                } else {
                    assert(lines_of(t)[i] == fc.1);
                }
            }
        }
    }
}

proof fn lemma_drop_redirects_members(ls: Seq<Seq<char>>, d: Seq<char>)
    ensures
        forall|i: int|
            0 <= i < drop_redirects(ls, d).len() ==> !redirects(#[trigger] drop_redirects(ls, d)[i], d)
                && ls.contains(drop_redirects(ls, d)[i]),
    decreases ls.len(),
{
    if ls.len() > 0 {
        let g = ls.drop_last();
        lemma_drop_redirects_members(g, d);
        assert forall|i: int| 0 <= i < drop_redirects(ls, d).len() implies !redirects(#[trigger] drop_redirects(ls, d)[i], d)
            && ls.contains(drop_redirects(ls, d)[i]) by {
            if i < drop_redirects(g, d).len() {
                assert(drop_redirects(ls, d)[i] == drop_redirects(g, d)[i]);
                let k = choose|k: int| 0 <= k < g.len() && g[k] == drop_redirects(g, d)[i];
                assert(ls[k] == g[k]);
            } else {
                assert(ls[ls.len() - 1] == drop_redirects(ls, d)[i]);
            }
        }
    }
}

proof fn lemma_scan_unmarked(x: Seq<Seq<char>>, ls: Seq<Seq<char>>)
    requires
        forall|i: int| 0 <= i < ls.len() ==> !is_marked(#[trigger] ls[i]),
    ensures
        scan((x, false), ls) == (x, false),
    decreases ls.len(),
{
    if ls.len() > 0 {
        let g = ls.drop_last();
        assert forall|i: int| 0 <= i < g.len() implies !is_marked(#[trigger] g[i]) by {
            assert(g[i] == ls[i]);
        }
        lemma_scan_unmarked(x, g);
        assert(!is_marked(ls[ls.len() - 1]));
    }
}

/// Adding the text after blocking `d` to a text whose lines are all kept
/// apart: its lines are those of the text, kept apart, then the entry.
proof fn lemma_add_lines(t: Seq<char>, d: Seq<char>, d1: Seq<char>, d2: Seq<char>)
    requires
        valid_domain(d),
        all_kept_apart(lines_of(t), d1, d2),
        !has_redirect(t, d),
    ensures
        lines_of(written(t, added(t, d))) == line_fold((Seq::empty(), Seq::empty()), with_newline(t)).0.push(entry_line(d)),
{
    let init = (Seq::<Seq<char>>::empty(), Seq::<char>::empty());
    let w = with_newline(t);
    lemma_line_fold_append(init, w, entry_line(d).push('\n'));
    lemma_newline_prefix(t);
    lemma_fold_entry(line_fold(init, w).0, d);
}

/// Blocking `d1` and `d2`, then unblocking `d1`, leaves `d2` alone listed,
/// for a text with no owned line and no line redirecting `d2`.
pub proof fn lemma_remove_exact(c: Seq<char>, d1: Seq<char>, d2: Seq<char>)
    requires
        valid_domain(d1),
        valid_domain(d2),
        d1 != d2,
        forall|i: int| 0 <= i < lines_of(c).len() ==> !is_marked(#[trigger] lines_of(c)[i]) && !redirects(lines_of(c)[i], d2),
    ensures
        ({
            let c1 = written(c, added(c, d1));
            let c2 = written(c1, added(c1, d2));
            blocked_domains(removed(c2, d1)) == seq![d2]
        }),
{
    let init = (Seq::<Seq<char>>::empty(), Seq::<char>::empty());
    let st0 = (Seq::<Seq<char>>::empty(), false);
    let e1 = entry_line(d1);
    let e2 = entry_line(d2);
    lemma_entry_words(d1);
    lemma_entry_words(d2);
    lemma_entry_shape(d1);
    lemma_entry_shape(d2);
    assert(all_kept_apart(lines_of(c), d1, d2));
    let c1 = written(c, added(c, d1));
    if !has_redirect(c, d1) {
        lemma_add_lines(c, d1, d1, d2);
        lemma_newline_kept_apart(c, d1, d2);
        let g0 = line_fold(init, with_newline(c)).0;
        assert forall|i: int| 0 <= i < lines_of(c1).len() implies kept_apart(#[trigger] lines_of(c1)[i], d1, d2) by {
            if i < g0.len() {
                assert(lines_of(c1)[i] == g0[i]);
            }
        }
    }
    assert(all_kept_apart(lines_of(c1), d1, d2));
    assert(!has_redirect(c1, d2)) by {
        if has_redirect(c1, d2) {
            let i = choose|i: int| 0 <= i < lines_of(c1).len() && redirects(#[trigger] lines_of(c1)[i], d2);
            assert(kept_apart(lines_of(c1)[i], d1, d2));
        }
    }
    let c2 = written(c1, added(c1, d2));
    lemma_add_lines(c1, d2, d1, d2);
    lemma_newline_kept_apart(c1, d1, d2);
    let g1 = line_fold(init, with_newline(c1)).0;
    assert(lines_of(c2) == g1.push(e2));
    assert(!redirects(e2, d1));
    assert(g1.push(e2).drop_last() =~= g1);
    let h = drop_redirects(g1, d1);
    assert(drop_redirects(g1.push(e2), d1) == h.push(e2));
    lemma_drop_redirects_members(g1, d1);
    let hp = h.push(e2);
    assert forall|i: int| 0 <= i < hp.len() implies no_newline(#[trigger] hp[i]) by {
        if i < h.len() {
            assert(hp[i] == h[i]);
            let k = choose|k: int| 0 <= k < g1.len() && g1[k] == h[i];
        }
    }
    lemma_joined_lines(hp);
    assert(removed(c2, d1) == joined(hp));
    assert forall|i: int| 0 <= i < h.len() implies !is_marked(#[trigger] h[i]) by {
        let k = choose|k: int| 0 <= k < g1.len() && g1[k] == h[i];
        assert(kept_apart(g1[k], d1, d2));
    }
    lemma_scan_unmarked(Seq::empty(), h);
    lemma_scan_push(st0, h, e2);
    assert(Seq::<Seq<char>>::empty().push(d2) =~= seq![d2]);
}

} // verus!
