//! The manifest text format: one `<DIGEST>  <PATH>` record per line.

use vstd::prelude::*;

use crate::mapping::{lemma_map_of_insert, map_of, path_lt, sorted_entries, DigestMapping};
use crate::text::{
    chars_of, is_digest, is_digest_char, is_whitespace, is_ws, string_of, to_upper, upper,
};

verus! {

/// A manifest line that matches neither line grammar; it holds the line.
#[derive(Debug, Clone, PartialEq, Eq)]
pub enum ManifestError {
    HashesFileParsingFailure(String),
}

/// Whether a character belongs to a class: digest characters when
/// `digest`, else whitespace.
pub open spec fn in_class(c: char, digest: bool) -> bool {
    if digest {
        is_digest_char(c)
    } else {
        is_ws(c)
    }
}

/// The length of the longest prefix of the class.
pub open spec fn run_len(s: Seq<char>, digest: bool) -> nat
    decreases s.len(),
{
    if s.len() > 0 && in_class(s[0], digest) {
        1 + run_len(s.drop_first(), digest)
    } else {
        0
    }
}

/// The length of the longest suffix of the class.
pub open spec fn back_run_len(s: Seq<char>, digest: bool) -> nat
    decreases s.len(),
{
    if s.len() > 0 && in_class(s.last(), digest) {
        1 + back_run_len(s.drop_last(), digest)
    } else {
        0
    }
}

pub open spec fn no_newline(s: Seq<char>) -> bool {
    forall|i: int| 0 <= i < s.len() ==> s[i] != '\n'
}

/// The digest-first grammar: a run of hex digits and dashes, whitespace,
/// then the path to the end of the line. Gives the digest and the raw path.
pub open spec fn grammar_digest_first(line: Seq<char>) -> Option<(Seq<char>, Seq<char>)> {
    let h = run_len(line, true);
    let rest = line.skip(h as int);
    let w = run_len(rest, false);
    let start: int = if w < rest.len() {
        (h + w) as int
    } else {
        line.len() - 1
    };
    if h == 0 || w == 0 || start <= h || !no_newline(line.skip(start)) {
        None
    } else {
        Some((line.take(h as int), line.skip(start)))
    }
}

/// The path-first grammar: the shortest path, whitespace, then a run of hex
/// digits and dashes that ends the line. Gives the digest and the raw path.
pub open spec fn grammar_path_first(line: Seq<char>) -> Option<(Seq<char>, Seq<char>)> {
    let t = back_run_len(line, true);
    let front = line.take(line.len() - t);
    let u = back_run_len(front, false);
    let ws_start: int = front.len() - u;
    let end: int = if ws_start >= 1 {
        ws_start
    } else {
        1
    };
    if t == 0 || u == 0 || end >= front.len() || !no_newline(line.take(end)) {
        None
    } else {
        Some((line.skip(line.len() - t), line.take(end)))
    }
}

/// The string without leading and trailing whitespace.
pub open spec fn trim(s: Seq<char>) -> Seq<char> {
    let r = s.skip(run_len(s, false) as int);
    r.take(r.len() - back_run_len(r, false))
}

/// The string without any `*`.
pub open spec fn remove_stars(s: Seq<char>) -> Seq<char>
    decreases s.len(),
{
    if s.len() == 0 {
        s
    } else if s.last() == '*' {
        remove_stars(s.drop_last())
    } else {
        remove_stars(s.drop_last()).push(s.last())
    }
}

/// A path as recorded: trimmed, without `*` markers, and with backslash
/// separators read as `/` when it has no `/`.
pub open spec fn clean_path(raw: Seq<char>) -> Seq<char> {
    let s = remove_stars(trim(raw));
    if s.contains('\\') && !s.contains('/') {
        s.map_values(|c: char| if c == '\\' { '/' } else { c })
    } else {
        s
    }
}

pub open spec fn upper_seq(s: Seq<char>) -> Seq<char> {
    s.map_values(|c: char| upper(c))
}

/// The `(path, digest)` entry that a line gives, if either grammar matches;
/// the first grammar is tried first.
pub open spec fn parse_line(line: Seq<char>) -> Option<(Seq<char>, Seq<char>)> {
    match grammar_digest_first(line) {
        Some((d, p)) => Some((clean_path(p), upper_seq(d))),
        None => match grammar_path_first(line) {
            Some((d, p)) => Some((clean_path(p), upper_seq(d))),
            None => None,
        },
    }
}

fn class_has(c: char, digest: bool) -> (r: bool)
    ensures
        r == in_class(c, digest),
{
    if digest {
        is_digest(c)
    } else {
        is_whitespace(c)
    }
}

/// The length of the run of a class that starts at `from`.
fn run_from(v: &Vec<char>, from: usize, digest: bool) -> (r: usize)
    requires
        from <= v@.len(),
    ensures
        r == run_len(v@.skip(from as int), digest),
        from + r <= v@.len(),
{
    let mut i = from;
    while i < v.len() && class_has(v[i], digest)
        invariant
            from <= i <= v@.len(),
            run_len(v@.skip(from as int), digest) == (i - from) + run_len(
                v@.skip(i as int),
                digest,
            ),
        decreases v@.len() - i,
    {
        assert(v@.skip(i as int).drop_first() =~= v@.skip(i + 1));
        i += 1;
    }
    i - from
}

/// The length of the run of a class that ends at `end`.
fn run_back_to(v: &Vec<char>, end: usize, digest: bool) -> (r: usize)
    requires
        end <= v@.len(),
    ensures
        r == back_run_len(v@.take(end as int), digest),
        r <= end,
{
    let mut i = end;
    while i > 0 && class_has(v[i - 1], digest)
        invariant
            i <= end <= v@.len(),
            back_run_len(v@.take(end as int), digest) == (end - i) + back_run_len(
                v@.take(i as int),
                digest,
            ),
        decreases i,
    {
        assert(v@.take(i as int).drop_last() =~= v@.take(i - 1));
        i -= 1;
    }
    end - i
}

/// Whether no character in `v[from..to]` is a newline.
fn newline_free(v: &Vec<char>, from: usize, to: usize) -> (r: bool)
    requires
        from <= to <= v@.len(),
    ensures
        r == no_newline(v@.subrange(from as int, to as int)),
{
    let mut i = from;
    while i < to
        invariant
            from <= i <= to <= v@.len(),
            forall|j: int| from <= j < i ==> v@[j] != '\n',
        decreases to - i,
    {
        if v[i] == '\n' {
            assert(v@.subrange(from as int, to as int)[i - from] == '\n');
            return false;
        }
        i += 1;
    }
    assert forall|j: int| 0 <= j < to - from implies v@.subrange(from as int, to as int)[j]
        != '\n' by {
        assert(v@.subrange(from as int, to as int)[j] == v@[from + j]);
    }
    true
}

/// The digest-first grammar on a line: the digest's length and where the
/// path starts.
fn match_digest_first(v: &Vec<char>) -> (r: Option<(usize, usize)>)
    ensures
        r is Some <==> grammar_digest_first(v@) is Some,
        r is Some ==> r->Some_0.0 <= r->Some_0.1 <= v@.len() && grammar_digest_first(v@)
            == Some((v@.take(r->Some_0.0 as int), v@.skip(r->Some_0.1 as int))),
{
    let h = run_from(v, 0, true);
    assert(v@.skip(0) =~= v@);
    let w = run_from(v, h, false);
    if h == 0 || w == 0 {
        return None;
    }
    let start = if w < v.len() - h {
        h + w
    } else {
        v.len() - 1
    };
    if h == 0 || w == 0 || start <= h {
        return None;
    }
    assert(v@.subrange(start as int, v@.len() as int) =~= v@.skip(start as int));
    if !newline_free(v, start, v.len()) {
        return None;
    }
    Some((h, start))
}

/// The path-first grammar on a line: where the path ends and where the
/// digest starts.
fn match_path_first(v: &Vec<char>) -> (r: Option<(usize, usize)>)
    ensures
        r is Some <==> grammar_path_first(v@) is Some,
        r is Some ==> r->Some_0.0 <= r->Some_0.1 <= v@.len() && grammar_path_first(v@) == Some(
            (v@.skip(r->Some_0.1 as int), v@.take(r->Some_0.0 as int)),
        ),
{
    let t = run_back_to(v, v.len(), true);
    assert(v@.take(v@.len() as int) =~= v@);
    let flen = v.len() - t;
    let u = run_back_to(v, flen, false);
    let ws_start = flen - u;
    let end = if ws_start >= 1 {
        ws_start
    } else {
        1
    };
    if t == 0 || u == 0 || end >= flen {
        return None;
    }
    assert(v@.subrange(0, end as int) =~= v@.take(end as int));
    if !newline_free(v, 0, end) {
        return None;
    }
    Some((end, flen))
}


/// A copy of `v[from..to]`.
fn copy_range(v: &Vec<char>, from: usize, to: usize) -> (r: Vec<char>)
    requires
        from <= to <= v@.len(),
    ensures
        r@ == v@.subrange(from as int, to as int),
{
    let mut out: Vec<char> = Vec::new();
    let mut i = from;
    while i < to
        invariant
            from <= i <= to <= v@.len(),
            out@ == v@.subrange(from as int, i as int),
        decreases to - i,
    {
        out.push(v[i]);
        assert(out@ =~= v@.subrange(from as int, i + 1));
        i += 1;
    }
    out
}

/// The characters of `v` without leading and trailing whitespace.
fn trim_chars(v: &Vec<char>) -> (r: Vec<char>)
    ensures
        r@ == trim(v@),
{
    let a = run_from(v, 0, false);
    assert(v@.skip(0) =~= v@);
    let rest = copy_range(v, a, v.len());
    assert(rest@ =~= v@.skip(a as int));
    let b = run_back_to(&rest, rest.len(), false);
    assert(rest@.take(rest@.len() as int) =~= rest@);
    let out = copy_range(&rest, 0, rest.len() - b);
    assert(out@ =~= rest@.take(rest@.len() - b));
    out
}

/// Cleans up a path read from a manifest: trims it, drops `*` markers, and
/// reads backslashes as `/` when the path has no `/`.
pub fn filepath_parser(raw: &str) -> (r: String)
    ensures
        r@ == clean_path(raw@),
{
    let v = chars_of(raw);
    let out = clean_chars(&v);
    string_of(out.as_slice())
}

fn clean_chars(v: &Vec<char>) -> (r: Vec<char>)
    ensures
        r@ == clean_path(v@),
{
    let t = trim_chars(v);
    let mut s: Vec<char> = Vec::new();
    let mut has_backslash = false;
    let mut has_slash = false;
    let mut i: usize = 0;
    while i < t.len()
        invariant
            i <= t@.len(),
            s@ == remove_stars(t@.take(i as int)),
            has_backslash == remove_stars(t@.take(i as int)).contains('\\'),
            has_slash == remove_stars(t@.take(i as int)).contains('/'),
        decreases t@.len() - i,
    {
        let c = t[i];
        assert(t@.take(i + 1).drop_last() =~= t@.take(i as int));
        let ghost before = s@;
        if c != '*' {
            s.push(c);
            proof {
                assert(s@ == before.push(c));
                if before.contains('\\') {
                    let j = choose|j: int| 0 <= j < before.len() && before[j] == '\\';
                    assert(s@[j] == '\\');
                }
                if before.contains('/') {
                    let j = choose|j: int| 0 <= j < before.len() && before[j] == '/';
                    assert(s@[j] == '/');
                }
                assert(s@[before.len() as int] == c);
                if s@.contains('\\') && !before.contains('\\') {
                    let j = choose|j: int| 0 <= j < s@.len() && s@[j] == '\\';
                    if j < before.len() {
                        assert(before[j] == '\\');
                    }
                }
                if s@.contains('/') && !before.contains('/') {
                    let j = choose|j: int| 0 <= j < s@.len() && s@[j] == '/';
                    if j < before.len() {
                        assert(before[j] == '/');
                    }
                }
            }
            if c == '\\' {
                has_backslash = true;
            }
            if c == '/' {
                has_slash = true;
            }
        }
        i += 1;
    }
    assert(t@.take(t@.len() as int) =~= t@);
    if has_backslash && !has_slash {
        let mut out: Vec<char> = Vec::new();
        let mut j: usize = 0;
        while j < s.len()
            invariant
                j <= s@.len(),
                out@ =~= s@.take(j as int).map_values(|c: char| if c == '\\' { '/' } else { c }),
            decreases s@.len() - j,
        {
            let c = s[j];
            out.push(if c == '\\' { '/' } else { c });
            j += 1;
        }
        assert(s@.take(s@.len() as int) =~= s@);
        out
    } else {
        s
    }
}

/// The upper-case copy of `v[from..to]`.
fn upper_range(v: &Vec<char>, from: usize, to: usize) -> (r: Vec<char>)
    requires
        from <= to <= v@.len(),
    ensures
        r@ == upper_seq(v@.subrange(from as int, to as int)),
{
    let mut out: Vec<char> = Vec::new();
    let mut i = from;
    while i < to
        invariant
            from <= i <= to <= v@.len(),
            out@ =~= upper_seq(v@.subrange(from as int, i as int)),
        decreases to - i,
    {
        out.push(to_upper(v[i]));
        i += 1;
    }
    out
}

/// Parses one manifest line into `hashes`: the digest-first grammar is
/// tried, then the path-first one. The path is cleaned up, the digest put
/// in upper case, and a path already present takes the new digest. A line
/// that matches neither grammar is an error that holds the line.
pub fn try_contains(line: &str, hashes: &mut DigestMapping) -> (r: Result<(), ManifestError>)
    requires
        old(hashes).wf(),
    ensures
        final(hashes).wf(),
        match parse_line(line@) {
            Some(e) => r is Ok && final(hashes).as_map() == old(hashes).as_map().insert(e.0, e.1),
            None => r is Err && r->Err_0->HashesFileParsingFailure_0@ == line@ && final(hashes)@
                == old(hashes)@,
        },
{
    let v = chars_of(line);
    match match_digest_first(&v) {
        Some((h, start)) => {
            let raw = copy_range(&v, start, v.len());
            assert(raw@ =~= v@.skip(start as int));
            let path = clean_chars(&raw);
            let digest = upper_range(&v, 0, h);
            assert(v@.subrange(0, h as int) =~= v@.take(h as int));
            hashes.insert(string_of(path.as_slice()), string_of(digest.as_slice()));
            return Ok(());
        },
        None => {},
    }
    match match_path_first(&v) {
        Some((end, dstart)) => {
            let raw = copy_range(&v, 0, end);
            assert(raw@ =~= v@.take(end as int));
            let path = clean_chars(&raw);
            let digest = upper_range(&v, dstart, v.len());
            assert(v@.subrange(dstart as int, v@.len() as int) =~= v@.skip(dstart as int));
            hashes.insert(string_of(path.as_slice()), string_of(digest.as_slice()));
            Ok(())
        },
        None => Err(ManifestError::HashesFileParsingFailure(string_of(v.as_slice()))),
    }
}


/// A blank line, or one whose first non-whitespace character is `;`.
pub open spec fn comment_or_blank(line: Seq<char>) -> bool {
    let r = line.skip(run_len(line, false) as int);
    line.len() == 0 || (r.len() > 0 && r[0] == ';')
}

/// A line that is neither blank nor a comment and matches no grammar.
pub open spec fn bad_line(line: Seq<char>) -> bool {
    !comment_or_blank(line) && parse_line(line) is None
}

pub open spec fn line_views(lines: Seq<String>) -> Seq<Seq<char>> {
    lines.map_values(|l: String| l@)
}

/// The mapping that a manifest's lines give, read in order: later lines
/// win over earlier ones for the same path.
pub open spec fn manifest_map(lines: Seq<Seq<char>>) -> Map<Seq<char>, Seq<char>>
    decreases lines.len(),
{
    if lines.len() == 0 {
        Map::empty()
    } else {
        let m = manifest_map(lines.drop_last());
        let l = lines.last();
        if comment_or_blank(l) {
            m
        } else {
            match parse_line(l) {
                Some(e) => m.insert(e.0, e.1),
                None => m,
            }
        }
    }
}

/// Whether a line is blank or a comment.
fn skip_line(v: &Vec<char>) -> (r: bool)
    ensures
        r == comment_or_blank(v@),
{
    let a = run_from(v, 0, false);
    assert(v@.skip(0) =~= v@);
    v.len() == 0 || (a < v.len() && v[a] == ';')
}

/// Reads a manifest's lines into a mapping. Blank lines and comments are
/// skipped; every other line must match one of the two line grammars, and
/// the first that matches neither is the error.
pub fn parse_manifest(lines: &Vec<String>) -> (r: Result<DigestMapping, ManifestError>)
    ensures
        r is Ok <==> (forall|i: int| 0 <= i < lines@.len() ==> !bad_line(#[trigger] lines@[i]@)),
        r is Ok ==> r->Ok_0.wf() && r->Ok_0.as_map() == manifest_map(line_views(lines@)),
        r is Err ==> exists|i: int|
            0 <= i < lines@.len() && bad_line(#[trigger] lines@[i]@) && (forall|j: int|
                0 <= j < i ==> !bad_line(#[trigger] lines@[j]@))
                && r->Err_0->HashesFileParsingFailure_0@ == lines@[i]@,
{
    let ghost views = line_views(lines@);
    let mut hashes = DigestMapping::new();
    let mut i: usize = 0;
    assert(hashes.as_map() =~= Map::<Seq<char>, Seq<char>>::empty());
    assert(views.take(0) =~= Seq::<Seq<char>>::empty());
    while i < lines.len()
        invariant
            i <= lines@.len(),
            views == line_views(lines@),
            hashes.wf(),
            hashes.as_map() == manifest_map(views.take(i as int)),
            forall|j: int| 0 <= j < i ==> !bad_line(#[trigger] lines@[j]@),
        decreases lines@.len() - i,
    {
        assert(views.take(i + 1).drop_last() =~= views.take(i as int));
        assert(views.take(i + 1).last() == lines@[i as int]@);
        let line = lines[i].as_str();
        let v = chars_of(line);
        if !skip_line(&v) {
            match try_contains(line, &mut hashes) {
                Ok(()) => {},
                Err(e) => {
                    return Err(e);
                },
            }
        }
        i += 1;
    }
    assert(views.take(lines@.len() as int) =~= views);
    Ok(hashes)
}

/// The manifest line of an entry: the digest, two spaces, the path.
pub open spec fn rendered_line(e: (Seq<char>, Seq<char>)) -> Seq<char> {
    e.1 + seq![' ', ' '] + e.0
}

pub open spec fn rendered(s: Seq<(Seq<char>, Seq<char>)>) -> Seq<Seq<char>> {
    s.map_values(|e: (Seq<char>, Seq<char>)| rendered_line(e))
}

/// The manifest lines of a mapping, one per entry in path order.
pub fn render_lines(hashes: &DigestMapping) -> (r: Vec<String>)
    ensures
        line_views(r@) == rendered(hashes@),
{
    let mut out: Vec<String> = Vec::new();
    let mut i: usize = 0;
    while i < hashes.len()
        invariant
            i <= hashes@.len(),
            line_views(out@) =~= rendered(hashes@.take(i as int)),
        decreases hashes@.len() - i,
    {
        let mut line = hashes.digest_at(i).clone();
        line.append("  ");
        line.append(hashes.path_at(i).as_str());
        proof {
            reveal_strlit("  ");
            assert(line@ =~= rendered_line(hashes@[i as int]));
        }
        let ghost before = out@;
        out.push(line);
        proof {
            assert(line_views(out@) =~= line_views(before).push(rendered_line(hashes@[i as int])));
            assert(hashes@.take(i + 1) =~= hashes@.take(i as int).push(hashes@[i as int]));
            assert(rendered(hashes@.take(i + 1)) =~= rendered(hashes@.take(i as int)).push(
                rendered_line(hashes@[i as int]),
            ));
        }
        i += 1;
    }
    assert(hashes@.take(hashes@.len() as int) =~= hashes@);
    out
}

/// A path that a manifest line carries unchanged: not empty, no
/// whitespace at either end, no `*`, no newline, and no backslash unless it
/// also has a `/`.
pub open spec fn portable_path(p: Seq<char>) -> bool {
    &&& p.len() > 0
    &&& !is_ws(p[0])
    &&& !is_ws(p.last())
    &&& !p.contains('*')
    &&& no_newline(p)
    &&& (p.contains('\\') ==> p.contains('/'))
}

/// A digest as manifests record it: upper-case hex digits or dashes.
pub open spec fn canonical_digest(d: Seq<char>) -> bool {
    &&& d.len() > 0
    &&& forall|i: int| 0 <= i < d.len() ==> is_digest_char(#[trigger] d[i]) && upper(d[i]) == d[i]
}

/// An entry that a manifest line carries unchanged.
pub open spec fn clean_entry(e: (Seq<char>, Seq<char>)) -> bool {
    portable_path(e.0) && canonical_digest(e.1)
}

proof fn lemma_run_of_prefix(d: Seq<char>, rest: Seq<char>, digest: bool)
    requires
        forall|i: int| 0 <= i < d.len() ==> in_class(#[trigger] d[i], digest),
        rest.len() == 0 || !in_class(rest[0], digest),
    ensures
        run_len(d + rest, digest) == d.len(),
    decreases d.len(),
{
    if d.len() > 0 {
        assert((d + rest).drop_first() =~= d.drop_first() + rest);
        lemma_run_of_prefix(d.drop_first(), rest, digest);
    } else {
        assert(d + rest =~= rest);
    }
}

proof fn lemma_remove_stars_none(p: Seq<char>)
    requires
        !p.contains('*'),
    ensures
        remove_stars(p) == p,
    decreases p.len(),
{
    if p.len() > 0 {
        let q = p.drop_last();
        if q.contains('*') {
            let j = choose|j: int| 0 <= j < q.len() && q[j] == '*';
            assert(p[j] == '*');
        }
        assert(p[p.len() - 1] == p.last());
        lemma_remove_stars_none(q);
        assert(q.push(p.last()) =~= p);
    }
}

proof fn lemma_parse_rendered(e: (Seq<char>, Seq<char>))
    requires
        portable_path(e.0),
        canonical_digest(e.1),
    ensures
        !comment_or_blank(rendered_line(e)),
        parse_line(rendered_line(e)) == Some(e),
{
    let (p, d) = e;
    let sep = seq![' ', ' '];
    let line = rendered_line(e);
    assert(line =~= d + (sep + p));
    assert((sep + p)[0] == ' ');
    lemma_run_of_prefix(d, sep + p, true);
    assert(line.skip(d.len() as int) =~= sep + p);
    lemma_run_of_prefix(sep, p, false);
    assert(line.skip(d.len() + 2 as int) =~= p);
    assert(line.take(d.len() as int) =~= d);
    assert(grammar_digest_first(line) == Some((d, p)));
    // the path is kept as it is
    assert(run_len(p, false) == 0);
    assert(p.skip(0) =~= p);
    assert(back_run_len(p, false) == 0);
    assert(p.take(p.len() as int) =~= p);
    assert(trim(p) == p);
    lemma_remove_stars_none(p);
    assert(clean_path(p) == p);
    assert(upper_seq(d) =~= d);
    // the line is no comment
    assert(line[0] == d[0]);
    assert(!is_ws(line[0]));
    assert(run_len(line, false) == 0);
    assert(line.skip(0) =~= line);
}

proof fn lemma_manifest_map_rendered(s: Seq<(Seq<char>, Seq<char>)>)
    requires
        sorted_entries(s),
        forall|i: int| 0 <= i < s.len() ==> clean_entry(#[trigger] s[i]),
    ensures
        manifest_map(rendered(s)) == map_of(s),
    decreases s.len(),
{
    if s.len() == 0 {
        assert(map_of(s) =~= Map::<Seq<char>, Seq<char>>::empty());
    } else {
        let t = s.drop_last();
        let n = s.len() - 1;
        assert forall|a: int, b: int| 0 <= a < b < t.len() implies path_lt(
            #[trigger] t[a].0,
            #[trigger] t[b].0,
        ) by {
            assert(path_lt(s[a].0, s[b].0));
        }
        assert forall|i: int| 0 <= i < t.len() implies clean_entry(#[trigger] t[i]) by {
            assert(t[i] == s[i]);
        }
        lemma_manifest_map_rendered(t);
        assert(rendered(s).drop_last() =~= rendered(t));
        assert(s[n] == s.last());
        lemma_parse_rendered(s.last());
        assert forall|j: int| 0 <= j < n implies path_lt(#[trigger] t[j].0, s.last().0) by {
            assert(path_lt(s[j].0, s[n].0));
        }
        lemma_map_of_insert(t, n, s.last());
        assert(t.insert(n, s.last()) =~= s);
    }
}

/// Writing a mapping's lines and reading them back gives the same mapping,
/// provided each path is portable and each digest canonical.
pub proof fn law_round_trip(m: &DigestMapping)
    requires
        m.wf(),
        forall|i: int| 0 <= i < m@.len() ==> clean_entry(#[trigger] m@[i]),
    ensures
        forall|i: int| 0 <= i < rendered(m@).len() ==> !bad_line(#[trigger] rendered(m@)[i]),
        manifest_map(rendered(m@)) == m.as_map(),
{
    assert forall|i: int| 0 <= i < rendered(m@).len() implies !bad_line(
        #[trigger] rendered(m@)[i],
    ) by {
        lemma_parse_rendered(m@[i]);
    }
    lemma_manifest_map_rendered(m@);
}

} // verus!
