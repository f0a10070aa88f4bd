//! The persisted CIDR set: one entry per line of plain text, and the rule
//! that decides when it is refreshed.

use vstd::prelude::*;
use vstd::string::StringExecFns;
use crate::cidr::{lines_hold, string_views};
use crate::text::{
    chars_between, chars_of, split_chars, split_on, trim, trim_bounds, trim_end,
    trim_start, trimmed, views_of,
};

verus! {

/// The refresh interval, in seconds, when the configuration gives none.
pub const DEFAULT_INTERVAL: u64 = 172800;

/// The lines of a cache file as they are loaded: the text is trimmed, then
/// each line of it is trimmed. A blank file has no lines.
pub open spec fn cache_lines(t: Seq<char>) -> Seq<Seq<char>> {
    if trim(t).len() == 0 {
        Seq::empty()
    } else {
        split_on(trim(t), '\n').map_values(|l: Seq<char>| trim(l))
    }
}

/// The text of a cache file that holds `lines`: each line followed by a
/// newline.
pub open spec fn rendered(lines: Seq<Seq<char>>) -> Seq<char>
    decreases lines.len(),
{
    if lines.len() == 0 {
        Seq::empty()
    } else {
        rendered(lines.drop_last()) + lines.last() + seq!['\n']
    }
}

/// A line as it is stored: one non-empty line of text, without surrounding
/// white space.
pub open spec fn is_stored_line(l: Seq<char>) -> bool {
    &&& l.len() > 0
    &&& !l.contains('\n')
    &&& trim(l) == l
}

/// Loads the lines of a cache file's text.
pub fn load_cache(text: &str) -> (r: Vec<String>)
    ensures
        string_views(r@) == cache_lines(text@),
{
    let all = chars_of(text);
    let (lo, hi) = trim_bounds(&all);
    if lo == hi {
        return Vec::new();
    }
    let cs = chars_between(&all, lo, hi);
    let pieces = split_chars(&cs, '\n');
    let ghost want = cache_lines(text@);
    let mut out: Vec<String> = Vec::new();
    let mut i: usize = 0;
    while i < pieces.len()
        invariant
            i <= pieces.len(),
            views_of(pieces@) == split_on(trim(text@), '\n'),
            trim(text@).len() > 0,
            want == cache_lines(text@),
            string_views(out@) == want.take(i as int),
        decreases pieces.len() - i,
    {
        let line = trimmed(&pieces[i]);
        assert(views_of(pieces@)[i as int] == pieces@[i as int]@);
        assert(want[i as int] == line@);
        let ghost before = out@;
        out.push(line);
        assert(string_views(out@) == string_views(before).push(line@));
        assert(string_views(out@) == want.take(i + 1));
        i = i + 1;
    }
    assert(want.take(i as int) == want);
    out
}

/// One line of a cache file: `cidr` and a newline.
pub fn cache_line(cidr: &str) -> (r: String)
    ensures
        r@ == cidr@.push('\n'),
{
    let mut s = String::from_str(cidr);
    s.append("\n");
    proof {
        reveal_strlit("\n");
    }
    s
}

/// The text of a cache file that holds `lines`.
pub fn render_cache(lines: &Vec<String>) -> (r: String)
    ensures
        r@ == rendered(string_views(lines@)),
{
    let mut out = String::new();
    let mut i: usize = 0;
    while i < lines.len()
        invariant
            i <= lines.len(),
            out@ == rendered(string_views(lines@).take(i as int)),
        decreases lines.len() - i,
    {
        let line = cache_line(lines[i].as_str());
        out.append(line.as_str());
        proof {
            let v = string_views(lines@);
            assert(v.take(i + 1).drop_last() == v.take(i as int));
            assert(out@ == rendered(v.take(i as int)) + v[i as int] + seq!['\n']);
        }
        i = i + 1;
    }
    assert(string_views(lines@).take(i as int) == string_views(lines@));
    out
}

proof fn lemma_split_on_append_plain(t: Seq<char>, u: Seq<char>, sep: char)
    requires
        !u.contains(sep),
    ensures
        ({
            let p = split_on(t, sep);
            split_on(t + u, sep) == p.update(p.len() - 1, p.last() + u)
        }),
    decreases u.len(),
{
    crate::text::lemma_split_on_nonempty(t, sep);
    if u.len() == 0 {
        assert(t + u == t);
        assert(split_on(t, sep).last() + u == split_on(t, sep).last());
    } else {
        let u0 = u.drop_last();
        assert(!u0.contains(sep)) by {
            if u0.contains(sep) {
                let k = choose|k: int| 0 <= k < u0.len() && u0[k] == sep;
                assert(u[k] == sep);
            }
        }
        lemma_split_on_append_plain(t, u0, sep);
        assert((t + u).drop_last() == t + u0);
        assert(u[u.len() - 1] != sep);
        let p = split_on(t, sep);
        assert(p.last() + u == (p.last() + u0).push(u.last()));
    }
}

proof fn lemma_split_rendered(lines: Seq<Seq<char>>)
    requires
        forall|i: int| 0 <= i < lines.len() ==> !(#[trigger] lines[i]).contains('\n'),
    ensures
        split_on(rendered(lines), '\n') == lines.push(Seq::empty()),
    decreases lines.len(),
{
    if lines.len() == 0 {
        assert(split_on(Seq::empty(), '\n') == seq![Seq::<char>::empty()]);
        assert(lines.push(Seq::empty()) == seq![Seq::<char>::empty()]);
    } else {
        let init = lines.drop_last();
        let x = lines.last();
        assert(!lines[lines.len() - 1].contains('\n'));
        lemma_split_rendered(init);
        let t = rendered(init);
        lemma_split_on_append_plain(t, x, '\n');
        let tx = t + x;
        assert(rendered(lines) == tx.push('\n'));
        assert(tx.push('\n').drop_last() == tx);
        assert(Seq::<char>::empty() + x == x);
        assert(init.push(Seq::empty()).update(init.len() as int, x) == lines);
    }
}

proof fn lemma_rendered_starts(lines: Seq<Seq<char>>)
    requires
        lines.len() > 0,
        lines[0].len() > 0,
    ensures
        rendered(lines).len() > 0,
        rendered(lines)[0] == lines[0][0],
    decreases lines.len(),
{
    if lines.len() > 1 {
        let init = lines.drop_last();
        assert(init[0] == lines[0]);
        lemma_rendered_starts(init);
    } else {
        assert(lines.drop_last() == Seq::<Seq<char>>::empty());
        assert(rendered(lines.drop_last()) == Seq::<char>::empty());
        assert(lines.last() == lines[0]);
        assert(rendered(lines) == (Seq::<char>::empty() + lines[0]) + seq!['\n']);
        assert(Seq::<char>::empty() + lines[0] == lines[0]);
    }
}

/// Writing stored lines to a cache file and loading it back gives the same
/// lines, in the same order, duplicates kept.
pub proof fn lemma_reload_is_identity(lines: Seq<Seq<char>>)
    requires
        forall|i: int| 0 <= i < lines.len() ==> is_stored_line(#[trigger] lines[i]),
    ensures
        cache_lines(rendered(lines)) == lines,
{
    let r = rendered(lines);
    if lines.len() == 0 {
        assert(trim(r) == r);
        assert(cache_lines(r) == lines);
    } else {
        let init = lines.drop_last();
        let x = lines.last();
        assert(is_stored_line(lines[0]));
        assert(is_stored_line(lines[lines.len() - 1]));
        assert forall|i: int| 0 <= i < init.len() implies !(#[trigger] init[i]).contains('\n') by {
            assert(is_stored_line(lines[i]));
        }
        crate::text::lemma_trimmed_ends(lines[0]);
        crate::text::lemma_trimmed_ends(x);
        lemma_rendered_starts(lines);
        let body = rendered(init) + x;
        assert(r == body.push('\n'));
        assert(body.last() == x.last());
        // the text begins with a non-space character
        assert(trim_start(r) == r);
        // and its only trailing space is the final newline
        assert(r.drop_last() == body);
        assert(trim_end(body) == body);
        assert(trim_end(r) == trim_end(body));
        assert(trim(r) == body);
        lemma_split_rendered(init);
        lemma_split_on_append_plain(rendered(init), x, '\n');
        assert(Seq::<char>::empty() + x == x);
        assert(init.push(Seq::empty()).update(init.len() as int, x) == lines);
        assert(split_on(body, '\n') == lines);
        let loaded = cache_lines(r);
        assert(loaded == lines.map_values(|l: Seq<char>| trim(l)));
        assert forall|i: int| 0 <= i < lines.len() implies loaded[i] == lines[i] by {
            assert(is_stored_line(lines[i]));
        }
        assert(loaded == lines);
    }
}

/// Writing a set of stored lines to a cache file and loading it back gives
/// the same decision, for every candidate address, as the set itself.
pub proof fn lemma_reload_keeps_decisions(lines: Seq<Seq<char>>, ip: Seq<char>)
    requires
        forall|i: int| 0 <= i < lines.len() ==> is_stored_line(#[trigger] lines[i]),
    ensures
        lines_hold(cache_lines(rendered(lines)), ip) == lines_hold(lines, ip),
{
    lemma_reload_is_identity(lines);
}

/// What to do with the cache before matching starts.
#[derive(Clone, Copy, Debug, PartialEq, Eq, Structural)]
pub enum CacheAction {
    /// No configuration yet: write the default one, then fetch.
    Bootstrap,
    /// Fetch the provider ranges and overwrite the cache.
    Refresh,
    /// Keep the cache as it is.
    Reuse,
}

/// The refresh interval: the configured one, or the default.
pub fn interval_or_default(configured: Option<u64>) -> (r: u64)
    ensures
        r == match configured {
            Some(v) => v,
            None => DEFAULT_INTERVAL,
        },
{
    match configured {
        Some(v) => v,
        None => DEFAULT_INTERVAL,
    }
}

/// Whether a cache `age` seconds old is stale under `interval`.
pub fn needs_refresh(interval: u64, age: u64) -> (r: bool)
    ensures
        r == (age > interval),
{
    age > interval
}

/// The action for the cache, given whether the configuration exists and
/// the age in seconds of the cache file, if there is one. A missing cache
/// file is fetched, so that matching never starts without one.
pub fn plan_cache(config_present: bool, cache_age: Option<u64>, interval: u64) -> (r: CacheAction)
    ensures
        !config_present ==> r == CacheAction::Bootstrap,
        config_present && cache_age is None ==> r == CacheAction::Refresh,
        config_present && cache_age is Some ==> r == (if cache_age->0 > interval {
            CacheAction::Refresh
        } else {
            CacheAction::Reuse
        }),
{
    if !config_present {
        CacheAction::Bootstrap
    } else {
        match cache_age {
            None => CacheAction::Refresh,
            Some(g) => if needs_refresh(interval, g) {
                CacheAction::Refresh
            } else {
                CacheAction::Reuse
            },
        }
    }
}

} // verus!

