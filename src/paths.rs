//! The artifact naming convention: every artifact path is derived from one
//! base path by replacing its extension.

use vstd::prelude::*;

verus! {

/// Why no artifact path can be derived from a base path.
#[derive(Debug, Clone, Copy, PartialEq, Eq, Structural)]
pub enum PathError {
    /// The base path ends in no file name (it is empty, ends in `/`, `.` or `..`).
    NoFileName,
}

/// The artifacts that are named after a base path by extension.
#[derive(Debug, Clone, Copy, PartialEq, Eq, Structural)]
pub enum ArtifactRole {
    ConstraintSystem,
    PublicParameters,
    ProverKey,
    VerifierKey,
    Proof,
}

pub open spec fn role_extension(role: ArtifactRole) -> Seq<char> {
    match role {
        ArtifactRole::ConstraintSystem => seq!['r', '1', 'c', 's'],
        ArtifactRole::PublicParameters => seq!['p', 'p'],
        ArtifactRole::ProverKey => seq!['p', 'k'],
        ArtifactRole::VerifierKey => seq!['v', 'k'],
        ArtifactRole::Proof => seq!['p', 'r', 'o', 'o', 'f'],
    }
}

/// The greatest index `i >= lo` with `p[i] == c`, or -1 where there is none.
pub open spec fn last_index_from(p: Seq<char>, c: char, lo: int) -> int
    decreases p.len(),
{
    if p.len() == 0 || p.len() <= lo {
        -1
    } else if p.last() == c {
        p.len() - 1
    } else {
        last_index_from(p.drop_last(), c, lo)
    }
}

/// Where the file name of `p` starts: just after its last `/`.
pub open spec fn name_start(p: Seq<char>) -> int {
    last_index_from(p, '/', 0) + 1
}

pub open spec fn file_name(p: Seq<char>) -> Seq<char> {
    p.subrange(name_start(p), p.len() as int)
}

pub open spec fn has_file_name(p: Seq<char>) -> bool {
    let n = file_name(p);
    n.len() > 0 && n != seq!['.'] && n != seq!['.', '.']
}

/// Where the stem of the file name ends: at the last `.` of the name that is
/// not its first character, else at the end of the path.
pub open spec fn stem_end(p: Seq<char>) -> int {
    let d = last_index_from(p, '.', name_start(p) + 1);
    if d < 0 {
        p.len() as int
    } else {
        d
    }
}

/// The directory part of `p`, with its final `/`.
pub open spec fn dir_part(p: Seq<char>) -> Seq<char> {
    p.subrange(0, name_start(p))
}

/// The file name of `p` without its extension.
pub open spec fn stem_name(p: Seq<char>) -> Seq<char> {
    p.subrange(name_start(p), stem_end(p))
}

/// `p` with the extension of its file name replaced by (or extended with) `ext`.
pub open spec fn with_extension_spec(p: Seq<char>, ext: Seq<char>) -> Seq<char> {
    p.subrange(0, stem_end(p)) + seq!['.'] + ext
}

/// The witness generator of the constraint system at `p`:
/// `<dir>/<stem>_js/<stem>.wasm`.
pub open spec fn witness_generator_spec(p: Seq<char>) -> Seq<char> {
    dir_part(p) + stem_name(p) + seq!['_', 'j', 's', '/'] + stem_name(p) + seq![
        '.',
        'w',
        'a',
        's',
        'm',
    ]
}

/// Where there is no `c` in `t`, the last `c` of `p + t` is that of `p`.
pub proof fn lemma_last_index_append(p: Seq<char>, t: Seq<char>, c: char, lo: int)
    requires
        0 <= lo,
        forall|i: int| 0 <= i < t.len() ==> t[i] != c,
    ensures
        last_index_from(p + t, c, lo) == if lo <= p.len() {
            last_index_from(p, c, lo)
        } else {
            -1
        },
    decreases t.len(),
{
    if t.len() == 0 {
        assert(p + t =~= p);
        if lo > p.len() {
            assert(last_index_from(p, c, lo) == -1);
        }
    } else {
        assert((p + t).drop_last() =~= p + t.drop_last());
        lemma_last_index_append(p, t.drop_last(), c, lo);
        if p.len() < lo && (p + t).len() <= lo {
        }
    }
}

pub proof fn lemma_last_index_bounds(p: Seq<char>, c: char, lo: int)
    requires
        0 <= lo,
    ensures
        last_index_from(p, c, lo) == -1 || (lo <= last_index_from(p, c, lo) < p.len() && p[last_index_from(p, c, lo)] == c),
        forall|i: int| last_index_from(p, c, lo) < i < p.len() && lo <= i ==> p[i] != c,
    decreases p.len(),
{
    if p.len() > 0 && p.len() > lo && p.last() != c {
        let q = p.drop_last();
        lemma_last_index_bounds(q, c, lo);
        let r = last_index_from(q, c, lo);
        if r != -1 {
            assert(p[r] == q[r]);
        }
        assert forall|i: int| r < i < p.len() && lo <= i implies p[i] != c by {
            if i < q.len() {
                assert(p[i] == q[i]);
            }
        }
    }
}

/// Replacing the extension of a path with one of two or more characters,
/// none of them `/` or `.`, keeps its directory and stem, and leaves a file name.
pub proof fn lemma_with_extension_shape(p: Seq<char>, ext: Seq<char>)
    requires
        has_file_name(p),
        ext.len() >= 2,
        forall|i: int| 0 <= i < ext.len() ==> ext[i] != '/' && ext[i] != '.',
    ensures
        has_file_name(with_extension_spec(p, ext)),
        name_start(with_extension_spec(p, ext)) == name_start(p),
        stem_end(with_extension_spec(p, ext)) == stem_end(p),
        forall|e2: Seq<char>| #![auto]
            with_extension_spec(with_extension_spec(p, ext), e2) == with_extension_spec(p, e2),
{
    let ns = name_start(p);
    let e = stem_end(p);
    lemma_last_index_bounds(p, '/', 0);
    lemma_last_index_bounds(p, '.', ns + 1);
    let a = p.subrange(0, e);
    let b = p.subrange(e, p.len() as int);
    assert(p =~= a + b);
    lemma_last_index_append(a, b, '/', 0);
    let t = seq!['.'] + ext;
    assert forall|i: int| 0 <= i < t.len() implies t[i] != '/' by {
        if i > 0 {
            assert(t[i] == ext[i - 1]);
        }
    }
    let q = with_extension_spec(p, ext);
    assert(q =~= a + t);
    lemma_last_index_append(a, t, '/', 0);
    assert(name_start(q) == ns);
    let n = q.subrange(ns, q.len() as int);
    assert(n.len() >= 3);
    assert(n != seq!['.']);
    assert(n != seq!['.', '.']);
    let ad = a.push('.');
    assert(q =~= ad + ext);
    lemma_last_index_append(ad, ext, '.', ns + 1);
    assert(ad.last() == '.');
    assert(last_index_from(ad, '.', ns + 1) == e);
    assert(stem_end(q) == e);
    assert forall|e2: Seq<char>| #![auto]
        with_extension_spec(q, e2) == with_extension_spec(p, e2) by {
        assert(q.subrange(0, e) =~= a);
    }
}

/// The greatest index `i >= lo` with `s@[i] == c`.
pub(crate) fn find_last(s: &str, c: char, lo: usize) -> (r: Option<usize>)
    ensures
        match r {
            Some(i) => last_index_from(s@, c, lo as int) == i && i < s@.len(),
            None => last_index_from(s@, c, lo as int) == -1,
        },
{
    let n = s.unicode_len();
    let mut i: usize = n;
    assert(s@.subrange(0, n as int) =~= s@);
    while i > lo
        invariant
            i <= n,
            n == s@.len(),
            last_index_from(s@.subrange(0, i as int), c, lo as int) == last_index_from(
                s@,
                c,
                lo as int,
            ),
        decreases i,
    {
        let ch = s.get_char(i - 1);
        if ch == c {
            assert(s@.subrange(0, i as int).last() == c);
            return Some(i - 1);
        }
        assert(s@.subrange(0, i as int).drop_last() =~= s@.subrange(0, i - 1));
        i = i - 1;
    }
    None
}

/// Where the file name starts and where its stem ends.
fn name_bounds(s: &str) -> (r: (usize, usize))
    ensures
        r.0 == name_start(s@),
        r.1 == stem_end(s@),
        0 <= r.0 <= r.1 <= s@.len(),
{
    proof {
        lemma_last_index_bounds(s@, '/', 0);
    }
    let len = s.unicode_len();
    let start = match find_last(s, '/', 0) {
        Some(i) => i + 1,
        None => 0,
    };
    proof {
        lemma_last_index_bounds(s@, '.', start + 1);
    }
    let n = s.unicode_len();
    let end = if start < n {
        match find_last(s, '.', start + 1) {
            Some(i) => i,
            None => n,
        }
    } else {
        n
    };
    (start, end)
}

fn has_name(s: &str, start: usize) -> (r: bool)
    requires
        start == name_start(s@),
        start <= s@.len(),
    ensures
        r == has_file_name(s@),
{
    let n = s.unicode_len();
    let ghost name = file_name(s@);
    if n == start {
        return false;
    }
    if n - start == 1 {
        let c = s.get_char(start);
        assert(name =~= seq![c]);
        assert(seq!['.'][0] == '.');
        return c != '.';
    }
    if n - start == 2 {
        let c0 = s.get_char(start);
        let c1 = s.get_char(start + 1);
        assert(name =~= seq![c0, c1]);
        assert(seq!['.', '.'][0] == '.' && seq!['.', '.'][1] == '.');
        return !(c0 == '.' && c1 == '.');
    }
    assert(name.len() != 1 && name.len() != 2);
    assert(name != seq!['.']);
    assert(name != seq!['.', '.']);
    true
}

/// Copies `s@[from..to]` to the end of `out`.
fn append_range(out: &mut String, s: &str, from: usize, to: usize)
    requires
        from <= to <= s@.len(),
    ensures
        final(out)@ == old(out)@ + s@.subrange(from as int, to as int),
{
    let part = s.substring_char(from, to);
    out.append(part);
}

impl ArtifactRole {
    /// The file extension of the artifact, without its dot.
    pub fn extension(&self) -> (r: &'static str)
        ensures
            r@ == role_extension(*self),
    {
        match self {
            ArtifactRole::ConstraintSystem => {
                proof {
                    reveal_strlit("r1cs");
                }
                "r1cs"
            },
            ArtifactRole::PublicParameters => {
                proof {
                    reveal_strlit("pp");
                }
                "pp"
            },
            ArtifactRole::ProverKey => {
                proof {
                    reveal_strlit("pk");
                }
                "pk"
            },
            ArtifactRole::VerifierKey => {
                proof {
                    reveal_strlit("vk");
                }
                "vk"
            },
            ArtifactRole::Proof => {
                proof {
                    reveal_strlit("proof");
                }
                "proof"
            },
        }
    }
}

/// `path` with the extension of its file name replaced by `ext` (added where
/// the name has none). A leading dot of the name starts no extension.
pub fn with_extension(path: &str, ext: &str) -> (r: Result<String, PathError>)
    ensures
        match r {
            Ok(p) => has_file_name(path@) && p@ == with_extension_spec(path@, ext@),
            Err(e) => !has_file_name(path@) && e == PathError::NoFileName,
        },
{
    let (start, end) = name_bounds(path);
    if !has_name(path, start) {
        return Err(PathError::NoFileName);
    }
    let mut out = String::new();
    append_range(&mut out, path, 0, end);
    proof {
        reveal_strlit(".");
    }
    out.append(".");
    out.append(ext);
    assert(out@ =~= with_extension_spec(path@, ext@));
    Ok(out)
}

/// The path of the artifact `role` derived from `base`.
pub fn derive_artifact_path(base: &str, role: ArtifactRole) -> (r: Result<String, PathError>)
    ensures
        match r {
            Ok(p) => has_file_name(base@) && p@ == with_extension_spec(base@, role_extension(role)),
            Err(e) => !has_file_name(base@) && e == PathError::NoFileName,
        },
{
    with_extension(base, role.extension())
}

/// The witness generator module of the constraint system at `r1cs_path`: the
/// directory `<stem>_js` beside it, holding `<stem>.wasm`.
pub fn witness_generator_path(r1cs_path: &str) -> (r: Result<String, PathError>)
    ensures
        match r {
            Ok(p) => has_file_name(r1cs_path@) && p@ == witness_generator_spec(r1cs_path@),
            Err(e) => !has_file_name(r1cs_path@) && e == PathError::NoFileName,
        },
{
    let (start, end) = name_bounds(r1cs_path);
    if !has_name(r1cs_path, start) {
        return Err(PathError::NoFileName);
    }
    let mut out = String::new();
    append_range(&mut out, r1cs_path, 0, start);
    append_range(&mut out, r1cs_path, start, end);
    proof {
        reveal_strlit("_js/");
        reveal_strlit(".wasm");
    }
    out.append("_js/");
    append_range(&mut out, r1cs_path, start, end);
    out.append(".wasm");
    assert(out@ =~= witness_generator_spec(r1cs_path@));
    Ok(out)
}

} // verus!
