//! Path rules: export-name validation, received file-name sanitising,
//! temp-file placement and conflict-free candidate names.
//!
//! Paths are handled as text. Both `/` and `\` separate components, and a
//! joined component is preceded by `/` unless the directory part already ends
//! in a separator.

use vstd::prelude::*;
use crate::text::{contains_chars, ends_with_chars, has_substring, starts_with_chars, decimal, decimal_chars, slice_chars, ascii_upper_chars, ascii_upper_seq, chars_of, contains_char, extend_chars, string_from_chars};

verus! {

broadcast use vstd::string::group_string_axioms;

/// Why a path component was refused.
#[derive(Debug, Clone, Copy, PartialEq, Eq, Structural)]
pub enum PathFault {
    Empty,
    ContainsSlash,
    ContainsBackslash,
    ContainsColon,
    ParentTraversal,
    CurrentDirectory,
    ContainsNul,
}

pub open spec fn is_path_sep(c: char) -> bool {
    c == '/' || c == '\\'
}

/// The first rule that `c` breaks, in the order the rules are checked.
pub open spec fn component_fault(c: Seq<char>) -> Option<PathFault> {
    if c.len() == 0 {
        Some(PathFault::Empty)
    } else if c.contains('/') {
        Some(PathFault::ContainsSlash)
    } else if c.contains('\\') {
        Some(PathFault::ContainsBackslash)
    } else if c.contains(':') {
        Some(PathFault::ContainsColon)
    } else if c == seq!['.', '.'] {
        Some(PathFault::ParentTraversal)
    } else if c == seq!['.'] {
        Some(PathFault::CurrentDirectory)
    } else if c.contains('\0') {
        Some(PathFault::ContainsNul)
    } else {
        None
    }
}

fn is_dots(v: &[char], n: usize) -> (r: bool)
    requires
        n == 1 || n == 2,
    ensures
        n == 1 ==> (r == (v@ == seq!['.'])),
        n == 2 ==> (r == (v@ == seq!['.', '.'])),
{
    if v.len() != n {
        return false;
    }
    if n == 1 {
        let r = v[0] == '.';
        if r {
            assert(v@ =~= seq!['.']);
        }
        r
    } else {
        let r = v[0] == '.' && v[1] == '.';
        if r {
            assert(v@ =~= seq!['.', '.']);
        }
        r
    }
}

/// Component check on characters; see [`validate_path_component`].
pub fn component_check(c: &[char]) -> (r: Result<(), PathFault>)
    ensures
        r == (match component_fault(c@) {
            Some(f) => Err(f),
            None => Ok(()),
        }),
{
    if c.len() == 0 {
        Err(PathFault::Empty)
    } else if contains_char(c, '/') {
        Err(PathFault::ContainsSlash)
    } else if contains_char(c, '\\') {
        Err(PathFault::ContainsBackslash)
    } else if contains_char(c, ':') {
        Err(PathFault::ContainsColon)
    } else if is_dots(c, 2) {
        Err(PathFault::ParentTraversal)
    } else if is_dots(c, 1) {
        Err(PathFault::CurrentDirectory)
    } else if contains_char(c, '\0') {
        Err(PathFault::ContainsNul)
    } else {
        Ok(())
    }
}

/// Checks that one component of an exported name is a plain file or folder
/// name: non-empty, no `/`, `\`, `:` or NUL, and neither `.` nor `..`.
pub fn validate_path_component(component: &str) -> (r: Result<(), PathFault>)
    ensures
        r == (match component_fault(component@) {
            Some(f) => Err(f),
            None => Ok(()),
        }),
{
    let c = chars_of(component);
    component_check(c.as_slice())
}

/// `s` cut at every `sep`, keeping empty pieces (as `str::split` does).
pub open spec fn split_on(s: Seq<char>, sep: char) -> Seq<Seq<char>>
    decreases s.len(),
{
    if s.len() == 0 {
        seq![Seq::<char>::empty()]
    } else {
        let prev = split_on(s.drop_last(), sep);
        if s.last() == sep {
            prev.push(Seq::<char>::empty())
        } else {
            prev.update(prev.len() - 1, prev.last().push(s.last()))
        }
    }
}

pub proof fn lemma_split_on_nonempty(s: Seq<char>, sep: char)
    ensures
        split_on(s, sep).len() >= 1,
    decreases s.len(),
{
    if s.len() > 0 {
        lemma_split_on_nonempty(s.drop_last(), sep);
    }
}

pub open spec fn views(v: Seq<Vec<char>>) -> Seq<Seq<char>> {
    v.map_values(|p: Vec<char>| p@)
}

/// The pieces of `s` between occurrences of `sep`.
pub fn split_chars(s: &[char], sep: char) -> (parts: Vec<Vec<char>>)
    ensures
        views(parts@) == split_on(s@, sep),
{
    let mut closed: Vec<Vec<char>> = Vec::new();
    let mut cur: Vec<char> = Vec::new();
    let mut i: usize = 0;
    while i < s.len()
        invariant
            i <= s@.len(),
            views(closed@).push(cur@) == split_on(s@.take(i as int), sep),
        decreases s@.len() - i,
    {
        let c = s[i];
        proof {
            lemma_split_on_nonempty(s@.take(i as int), sep);
            assert(s@.take((i + 1) as int).drop_last() =~= s@.take(i as int));
            assert(s@.take((i + 1) as int).last() == c);
        }
        if c == sep {
            let done = cur;
            closed.push(done);
            cur = Vec::new();
            assert(views(closed@).push(cur@) =~= split_on(s@.take((i + 1) as int), sep));
        } else {
            let ghost before = views(closed@).push(cur@);
            cur.push(c);
            assert(views(closed@).push(cur@) =~= before.update(before.len() - 1, before.last().push(c)));
        }
        i = i + 1;
    }
    assert(s@.take(s@.len() as int) =~= s@);
    closed.push(cur);
    closed
}

/// Appends one component to a path, adding `/` unless the path is empty or
/// already ends in a separator.
pub open spec fn push_component(path: Seq<char>, part: Seq<char>) -> Seq<char> {
    if path.len() == 0 || is_path_sep(path.last()) {
        path + part
    } else {
        path.push('/') + part
    }
}

/// Joins `parts` under `acc`, stopping at the first refused part.
pub open spec fn join_checked(acc: Seq<char>, parts: Seq<Seq<char>>) -> Result<Seq<char>, PathFault>
    decreases parts.len(),
{
    if parts.len() == 0 {
        Ok(acc)
    } else {
        match component_fault(parts[0]) {
            Some(f) => Err(f),
            None => join_checked(push_component(acc, parts[0]), parts.drop_first()),
        }
    }
}

/// Where an exported entry named `name` (components separated by `/`) lands
/// under `root`.
pub open spec fn export_path(root: Seq<char>, name: Seq<char>) -> Result<Seq<char>, PathFault> {
    join_checked(root, split_on(name, '/'))
}

pub(crate) fn push_component_exec(path: &mut Vec<char>, part: &[char])
    ensures
        final(path)@ == push_component(old(path)@, part@),
{
    if path.len() > 0 {
        let last = path[path.len() - 1];
        if !(last == '/' || last == '\\') {
            path.push('/');
        }
    }
    extend_chars(path, part);
}

/// The target path for exported entry `name` under `root`; every `/`-separated
/// component of `name` must pass [`validate_path_component`].
pub fn get_export_path(root: &str, name: &str) -> (r: Result<String, PathFault>)
    ensures
        match r {
            Ok(p) => export_path(root@, name@) == Ok::<Seq<char>, PathFault>(p@),
            Err(f) => export_path(root@, name@) == Err::<Seq<char>, PathFault>(f),
        },
{
    let name_chars = chars_of(name);
    let parts = split_chars(name_chars.as_slice(), '/');
    let ghost all = views(parts@);
    let mut acc = chars_of(root);
    let mut k: usize = 0;
    assert(all.skip(0) =~= all);
    while k < parts.len()
        invariant
            k <= parts@.len(),
            all == views(parts@),
            all == split_on(name@, '/'),
            join_checked(root@, all) == join_checked(acc@, all.skip(k as int)),
        decreases parts@.len() - k,
    {
        let part = &parts[k];
        assert(all.skip(k as int)[0] == part@);
        match component_check(part.as_slice()) {
            Err(f) => {
                return Err(f);
            },
            Ok(()) => {},
        }
        push_component_exec(&mut acc, part.as_slice());
        assert(all.skip(k as int).drop_first() =~= all.skip((k + 1) as int));
        k = k + 1;
    }
    assert(all.skip(k as int) =~= Seq::<Seq<char>>::empty());
    Ok(string_from_chars(acc.as_slice()))
}

} // verus!

verus! {

/// `s` cut at every separator (`/` or `\`), keeping empty pieces.
pub open spec fn split_seps(s: Seq<char>) -> Seq<Seq<char>>
    decreases s.len(),
{
    if s.len() == 0 {
        seq![Seq::<char>::empty()]
    } else {
        let prev = split_seps(s.drop_last());
        if is_path_sep(s.last()) {
            prev.push(Seq::<char>::empty())
        } else {
            prev.update(prev.len() - 1, prev.last().push(s.last()))
        }
    }
}

pub proof fn lemma_split_seps_nonempty(s: Seq<char>)
    ensures
        split_seps(s).len() >= 1,
    decreases s.len(),
{
    if s.len() > 0 {
        lemma_split_seps_nonempty(s.drop_last());
    }
}

/// The pieces of `s` between separators.
pub fn split_at_seps(s: &[char]) -> (parts: Vec<Vec<char>>)
    ensures
        views(parts@) == split_seps(s@),
{
    let mut closed: Vec<Vec<char>> = Vec::new();
    let mut cur: Vec<char> = Vec::new();
    let mut i: usize = 0;
    while i < s.len()
        invariant
            i <= s@.len(),
            views(closed@).push(cur@) == split_seps(s@.take(i as int)),
        decreases s@.len() - i,
    {
        let c = s[i];
        proof {
            lemma_split_seps_nonempty(s@.take(i as int));
            assert(s@.take((i + 1) as int).drop_last() =~= s@.take(i as int));
            assert(s@.take((i + 1) as int).last() == c);
        }
        if c == '/' || c == '\\' {
            let done = cur;
            closed.push(done);
            cur = Vec::new();
            assert(views(closed@).push(cur@) =~= split_seps(s@.take((i + 1) as int)));
        } else {
            let ghost before = views(closed@).push(cur@);
            cur.push(c);
            assert(views(closed@).push(cur@) =~= before.update(before.len() - 1, before.last().push(c)));
        }
        i = i + 1;
    }
    assert(s@.take(s@.len() as int) =~= s@);
    closed.push(cur);
    closed
}

/// A piece of a received relative path that is kept: not empty, not `.`,
/// not `..`, and not a drive prefix (no `:`).
pub open spec fn kept_piece(p: Seq<char>) -> bool {
    p.len() > 0 && p != seq!['.'] && p != seq!['.', '.'] && !p.contains(':')
}

pub open spec fn kept_piece_fn() -> spec_fn(Seq<char>) -> bool {
    |p: Seq<char>| kept_piece(p)
}

/// `parts` joined under `acc`, one component at a time.
pub open spec fn join_all(acc: Seq<char>, parts: Seq<Seq<char>>) -> Seq<char>
    decreases parts.len(),
{
    if parts.len() == 0 {
        acc
    } else {
        join_all(push_component(acc, parts[0]), parts.drop_first())
    }
}

/// The components of a received relative path that survive: separators of
/// either kind split it, and empty pieces (a leading separator of an absolute
/// path), `.`, `..` and drive prefixes are stripped.
pub open spec fn confined_parts(relative: Seq<char>) -> Seq<Seq<char>> {
    split_seps(relative).filter(kept_piece_fn())
}

/// Where a received sync file lands under its folder `base`; `None` when
/// nothing of the relative path survives.
pub open spec fn sync_target_spec(base: Seq<char>, relative: Seq<char>) -> Option<Seq<char>> {
    if confined_parts(relative).len() == 0 {
        None
    } else {
        Some(join_all(base, confined_parts(relative)))
    }
}

fn piece_kept(p: &Vec<char>) -> (r: bool)
    ensures
        r == kept_piece(p@),
{
    if p.len() == 0 {
        return false;
    }
    if p.len() == 1 && p[0] == '.' {
        assert(p@ =~= seq!['.']);
        return false;
    }
    if p.len() == 2 && p[0] == '.' && p[1] == '.' {
        assert(p@ =~= seq!['.', '.']);
        return false;
    }
    let mut i: usize = 0;
    while i < p.len()
        invariant
            i <= p@.len(),
            forall|j: int| 0 <= j < i ==> p@[j] != ':',
        decreases p@.len() - i,
    {
        if p[i] == ':' {
            assert(p@[i as int] == ':');
            return false;
        }
        i = i + 1;
    }
    proof {
        if p@ =~= seq!['.'] {
            assert(p@.len() == 1 && p@[0] == '.');
        }
        if p@ =~= seq!['.', '.'] {
            assert(p@.len() == 2 && p@[0] == '.' && p@[1] == '.');
        }
        assert(!p@.contains(':'));
    }
    true
}

/// The path a received sync file is written to: `base` joined with the
/// surviving components of `relative`, so it never leaves `base`.
pub fn sync_target_path(base: &str, relative: &str) -> (r: Option<String>)
    ensures
        r matches Some(t) ==> sync_target_spec(base@, relative@) == Some(t@),
        r is None ==> sync_target_spec(base@, relative@) is None,
{
    let rel = chars_of(relative);
    let pieces = split_at_seps(rel.as_slice());
    let ghost all = views(pieces@);
    let mut acc = chars_of(base);
    let mut kept: usize = 0;
    let ghost mut taken: Seq<Seq<char>> = Seq::empty();
    let mut k: usize = 0;
    while k < pieces.len()
        invariant
            k <= pieces@.len(),
            all == views(pieces@),
            all == split_seps(relative@),
            taken == all.take(k as int).filter(kept_piece_fn()),
            kept == taken.len(),
            acc@ == join_all(base@, taken),
        decreases pieces@.len() - k,
    {
        let piece = &pieces[k];
        proof {
            assert(all.take(k + 1) =~= all.take(k as int).push(all[k as int]));
            all.take(k as int).lemma_filter_push(all[k as int], kept_piece_fn());
            assert(all[k as int] == piece@);
        }
        if piece_kept(piece) {
            push_component_exec(&mut acc, piece.as_slice());
            proof {
                lemma_join_all_push(base@, taken, piece@);
                taken = taken.push(piece@);
            }
            kept = kept + 1;
        }
        k = k + 1;
    }
    assert(all.take(all.len() as int) =~= all);
    if kept == 0 {
        None
    } else {
        Some(string_from_chars(acc.as_slice()))
    }
}

proof fn lemma_join_all_push(acc: Seq<char>, parts: Seq<Seq<char>>, p: Seq<char>)
    ensures
        join_all(acc, parts.push(p)) == push_component(join_all(acc, parts), p),
    decreases parts.len(),
{
    if parts.len() > 0 {
        assert(parts.push(p).drop_first() =~= parts.drop_first().push(p));
        assert(parts.push(p)[0] == parts[0]);
        let pc = push_component(acc, parts[0]);
        lemma_join_all_push(pc, parts.drop_first(), p);
        assert(join_all(acc, parts.push(p)) == join_all(pc, parts.push(p).drop_first()));
        assert(join_all(acc, parts) == join_all(pc, parts.drop_first()));
    } else {
        assert(parts.push(p).drop_first() =~= Seq::<Seq<char>>::empty());
        assert(parts.push(p)[0] == p);
        assert(join_all(push_component(acc, p), Seq::<Seq<char>>::empty()) == push_component(acc, p));
        assert(join_all(acc, parts) == acc);
    }
}

proof fn lemma_join_all_prefix(acc: Seq<char>, parts: Seq<Seq<char>>)
    ensures
        acc.len() <= join_all(acc, parts).len(),
        join_all(acc, parts).take(acc.len() as int) == acc,
    decreases parts.len(),
{
    if parts.len() > 0 {
        let next = push_component(acc, parts[0]);
        assert(next.take(acc.len() as int) =~= acc);
        lemma_join_all_prefix(next, parts.drop_first());
        assert(join_all(acc, parts).take(acc.len() as int) =~= join_all(next, parts.drop_first()).take(next.len() as int).take(acc.len() as int));
    }
}

proof fn lemma_split_pieces_have_no_sep(s: Seq<char>)
    ensures
        forall|k: int, j: int| 0 <= k < split_seps(s).len() && 0 <= j < split_seps(s)[k].len() ==> !is_path_sep(#[trigger] split_seps(s)[k][j]),
    decreases s.len(),
{
    if s.len() > 0 {
        lemma_split_seps_nonempty(s.drop_last());
        lemma_split_pieces_have_no_sep(s.drop_last());
        let prev = split_seps(s.drop_last());
        let cur = split_seps(s);
        assert forall|k: int, j: int| 0 <= k < cur.len() && 0 <= j < cur[k].len() implies !is_path_sep(#[trigger] cur[k][j]) by {
            if k < prev.len() - 1 || (is_path_sep(s.last()) && k < prev.len()) {
                assert(cur[k] == prev[k]);
            } else if !is_path_sep(s.last()) {
                assert(k == prev.len() - 1);
                assert(cur[k] == prev.last().push(s.last()));
                if j < prev.last().len() {
                    assert(cur[k][j] == prev[k][j]);
                }
            }
        }
    }
}

/// A received sync file never lands outside its folder: its path is the
/// folder followed by components, each free of separators, none of them
/// `.`, `..`, empty, or a drive prefix.
pub proof fn lemma_sync_target_confined(base: Seq<char>, relative: Seq<char>)
    ensures
        sync_target_spec(base, relative) matches Some(t) ==> {
            &&& t.len() >= base.len()
            &&& t.take(base.len() as int) == base
            &&& t == join_all(base, confined_parts(relative))
            &&& forall|k: int| 0 <= k < confined_parts(relative).len() ==> {
                &&& kept_piece(#[trigger] confined_parts(relative)[k])
                &&& forall|j: int| 0 <= j < confined_parts(relative)[k].len() ==> !is_path_sep(confined_parts(relative)[k][j])
            }
        },
{
    let parts = confined_parts(relative);
    lemma_join_all_prefix(base, parts);
    lemma_split_pieces_have_no_sep(relative);
    let all = split_seps(relative);
    assert forall|k: int| 0 <= k < parts.len() implies {
        &&& kept_piece(#[trigger] parts[k])
        &&& forall|j: int| 0 <= j < parts[k].len() ==> !is_path_sep(parts[k][j])
    } by {
        all.lemma_filter_pred(kept_piece_fn(), k);
        assert(all.filter(kept_piece_fn()).contains(parts[k]));
        all.lemma_filter_contains_rev(kept_piece_fn(), parts[k]);
        let i = choose|i: int| 0 <= i < all.len() && all[i] == parts[k];
        assert forall|j: int| 0 <= j < parts[k].len() implies !is_path_sep(parts[k][j]) by {
            assert(!is_path_sep(all[i][j]));
        }
    }
}

/// A piece that names something: neither empty nor `.`.
pub open spec fn is_named_piece(p: Seq<char>) -> bool {
    p.len() > 0 && p != seq!['.']
}

pub open spec fn last_named_piece(pieces: Seq<Seq<char>>) -> Option<Seq<char>>
    decreases pieces.len(),
{
    if pieces.len() == 0 {
        None
    } else if is_named_piece(pieces.last()) {
        Some(pieces.last())
    } else {
        last_named_piece(pieces.drop_last())
    }
}

/// The final component of a path, if it names a file: the last piece that is
/// neither empty nor `.`, unless that piece is `..`.
pub open spec fn file_name_of(path: Seq<char>) -> Option<Seq<char>> {
    match last_named_piece(split_seps(path)) {
        Some(n) => if n == seq!['.', '.'] { None } else { Some(n) },
        None => None,
    }
}

fn last_named_index(pieces: &Vec<Vec<char>>) -> (r: Option<usize>)
    ensures
        match r {
            Some(j) => j < pieces@.len() && last_named_piece(views(pieces@)) == Some(pieces@[j as int]@),
            None => last_named_piece(views(pieces@)) == None::<Seq<char>>,
        },
{
    let ghost all = views(pieces@);
    let mut n: usize = pieces.len();
    assert(all.take(n as int) =~= all);
    while n > 0
        invariant
            n <= pieces@.len(),
            all == views(pieces@),
            last_named_piece(all) == last_named_piece(all.take(n as int)),
        decreases n,
    {
        let p = &pieces[n - 1];
        assert(all.take(n as int).last() == p@);
        assert(all.take(n as int).drop_last() =~= all.take((n - 1) as int));
        if p.len() > 0 && !is_dots(p.as_slice(), 1) {
            return Some(n - 1);
        }
        n = n - 1;
    }
    None
}

/// Names Windows reserves for devices, with or without an extension:
/// `CON`, `PRN`, `AUX`, `NUL`, `COM1`..`COM9`, `LPT1`..`LPT9`, compared after
/// ASCII upper-casing.
pub open spec fn reserved_stem3(s: Seq<char>) -> bool {
    s == seq!['C', 'O', 'N'] || s == seq!['P', 'R', 'N'] || s == seq!['A', 'U', 'X'] || s
        == seq!['N', 'U', 'L']
}

pub open spec fn reserved_stem4(s: Seq<char>) -> bool {
    s.len() == 4 && (s.take(3) == seq!['C', 'O', 'M'] || s.take(3) == seq!['L', 'P', 'T'])
        && '1' <= s[3] && s[3] <= '9'
}

pub open spec fn is_reserved_device_name(upper: Seq<char>) -> bool {
    (upper.len() >= 3 && reserved_stem3(upper.take(3)) && (upper.len() == 3 || upper[3] == '.'))
        || (upper.len() >= 4 && reserved_stem4(upper.take(4)) && (upper.len() == 4 || upper[4]
        == '.'))
}

fn is_reserved_exec(u: &[char]) -> (r: bool)
    ensures
        r == is_reserved_device_name(u@),
{
    let n = u.len();
    let mut r3 = false;
    if n >= 3 && (n == 3 || u[3] == '.') {
        let (a, b, c) = (u[0], u[1], u[2]);
        r3 = (a == 'C' && b == 'O' && c == 'N') || (a == 'P' && b == 'R' && c == 'N') || (a == 'A'
            && b == 'U' && c == 'X') || (a == 'N' && b == 'U' && c == 'L');
        proof {
            let t = u@.take(3);
            assert(t[0] == a && t[1] == b && t[2] == c && t.len() == 3);
            if r3 {
                assert(reserved_stem3(t)) by {
                    if a == 'C' { assert(t =~= seq!['C', 'O', 'N']); }
                    else if a == 'P' { assert(t =~= seq!['P', 'R', 'N']); }
                    else if a == 'A' { assert(t =~= seq!['A', 'U', 'X']); }
                    else { assert(t =~= seq!['N', 'U', 'L']); }
                }
            } else {
                assert(!reserved_stem3(t)) by {
                    if t == seq!['C', 'O', 'N'] { assert(t[0] == 'C' && t[1] == 'O' && t[2] == 'N'); }
                    if t == seq!['P', 'R', 'N'] { assert(t[0] == 'P' && t[1] == 'R' && t[2] == 'N'); }
                    if t == seq!['A', 'U', 'X'] { assert(t[0] == 'A' && t[1] == 'U' && t[2] == 'X'); }
                    if t == seq!['N', 'U', 'L'] { assert(t[0] == 'N' && t[1] == 'U' && t[2] == 'L'); }
                }
            }
        }
    }
    let mut r4 = false;
    if n >= 4 && (n == 4 || u[4] == '.') {
        let (a, b, c, d) = (u[0], u[1], u[2], u[3]);
        r4 = ((a == 'C' && b == 'O' && c == 'M') || (a == 'L' && b == 'P' && c == 'T')) && '1' <= d
            && d <= '9';
        proof {
            let t = u@.take(4);
            let h = t.take(3);
            assert(h[0] == a && h[1] == b && h[2] == c && h.len() == 3 && t[3] == d);
            if a == 'C' && b == 'O' && c == 'M' { assert(h =~= seq!['C', 'O', 'M']); }
            if a == 'L' && b == 'P' && c == 'T' { assert(h =~= seq!['L', 'P', 'T']); }
            if h == seq!['C', 'O', 'M'] { assert(h[0] == 'C' && h[1] == 'O' && h[2] == 'M'); }
            if h == seq!['L', 'P', 'T'] { assert(h[0] == 'L' && h[1] == 'P' && h[2] == 'T'); }
        }
    }
    r3 || r4
}

/// What a received file name reduces to: its final component, unless that is
/// empty, holds a separator, `:` or NUL, starts with `.`, is `..`, or is a
/// reserved device name.
pub open spec fn sanitized_name(name: Seq<char>) -> Option<Seq<char>> {
    match file_name_of(name) {
        None => None,
        Some(n) => if n.len() == 0 || n.contains('/') || n.contains('\\') || n.contains(':')
            || n.contains('\0') || n[0] == '.' || n == seq!['.', '.'] || is_reserved_device_name(
            ascii_upper_seq(n),
        ) {
            None
        } else {
            Some(n)
        },
    }
}

/// Reduces a sender-supplied file name to a safe bare file name, or `None`
/// when it cannot be used.
pub fn sanitize_filename(name: &str) -> (r: Option<String>)
    ensures
        match r {
            Some(s) => sanitized_name(name@) == Some(s@),
            None => sanitized_name(name@) == None::<Seq<char>>,
        },
        r matches Some(s) ==> {
            &&& s@.len() > 0
            &&& !s@.contains('/')
            &&& !s@.contains('\\')
            &&& !s@.contains(':')
            &&& !s@.contains('\0')
            &&& s@[0] != '.'
        },
{
    let chars = chars_of(name);
    let pieces = split_at_seps(chars.as_slice());
    let j = match last_named_index(&pieces) {
        Some(j) => j,
        None => {
            return None;
        },
    };
    let n = &pieces[j];
    if is_dots(n.as_slice(), 2) {
        return None;
    }
    if n.len() == 0 || contains_char(n.as_slice(), '/') || contains_char(n.as_slice(), '\\')
        || contains_char(n.as_slice(), ':') || contains_char(n.as_slice(), '\0') || n[0] == '.' {
        return None;
    }
    let upper = ascii_upper_chars(n.as_slice());
    if is_reserved_exec(upper.as_slice()) {
        return None;
    }
    Some(string_from_chars(n.as_slice()))
}

} // verus!

verus! {

/// Suffix of the temporary file an incoming transfer writes into.
pub const TMP_EXTENSION: &'static str = ".send2me.secret";

pub open spec fn trim_trailing_seps(s: Seq<char>) -> Seq<char>
    decreases s.len(),
{
    if s.len() > 0 && is_path_sep(s.last()) {
        trim_trailing_seps(s.drop_last())
    } else {
        s
    }
}

pub open spec fn last_index_where_sep(s: Seq<char>) -> int
    decreases s.len(),
{
    if s.len() == 0 {
        -1
    } else if is_path_sep(s.last()) {
        s.len() - 1
    } else {
        last_index_where_sep(s.drop_last())
    }
}

/// The directory part of a path: `None` for an empty path or a bare root,
/// the empty text for a single relative component, the root separator for a
/// top-level entry, otherwise everything before the final component with
/// trailing separators removed.
pub open spec fn parent_dir(p: Seq<char>) -> Option<Seq<char>> {
    let t = trim_trailing_seps(p);
    if t.len() == 0 {
        None
    } else {
        let k = last_index_where_sep(t);
        if k < 0 {
            Some(Seq::<char>::empty())
        } else {
            let d = trim_trailing_seps(t.take(k));
            if d.len() == 0 {
                Some(t.take(1))
            } else {
                Some(d)
            }
        }
    }
}

proof fn lemma_trim_prefix(s: Seq<char>)
    ensures
        trim_trailing_seps(s).len() <= s.len(),
        trim_trailing_seps(s) == s.take(trim_trailing_seps(s).len() as int),
        trim_trailing_seps(s).len() > 0 ==> !is_path_sep(trim_trailing_seps(s).last()),
    decreases s.len(),
{
    if s.len() > 0 && is_path_sep(s.last()) {
        lemma_trim_prefix(s.drop_last());
        let t = trim_trailing_seps(s.drop_last());
        assert(s.drop_last().take(t.len() as int) =~= s.take(t.len() as int));
    } else {
        assert(s.take(s.len() as int) =~= s);
    }
}

proof fn lemma_last_sep_bounds(s: Seq<char>)
    ensures
        -1 <= last_index_where_sep(s) < s.len(),
        last_index_where_sep(s) >= 0 ==> is_path_sep(s[last_index_where_sep(s)]),
    decreases s.len(),
{
    if s.len() > 0 && !is_path_sep(s.last()) {
        lemma_last_sep_bounds(s.drop_last());
    }
}

/// Length of `trim_trailing_seps(s[..end])`.
fn trimmed_len(s: &[char], end: usize) -> (r: usize)
    requires
        end <= s@.len(),
    ensures
        r <= end,
        s@.take(r as int) == trim_trailing_seps(s@.take(end as int)),
{
    let mut e = end;
    while e > 0 && (s[e - 1] == '/' || s[e - 1] == '\\')
        invariant
            e <= end <= s@.len(),
            trim_trailing_seps(s@.take(e as int)) == trim_trailing_seps(s@.take(end as int)),
        decreases e,
    {
        assert(s@.take(e as int).drop_last() =~= s@.take((e - 1) as int));
        e = e - 1;
    }
    proof {
        if e > 0 {
            assert(s@.take(e as int).last() == s@[e - 1]);
        }
    }
    e
}

/// Index of the last separator in `s[..end]`.
fn last_sep_before(s: &[char], end: usize) -> (r: Option<usize>)
    requires
        end <= s@.len(),
    ensures
        match r {
            Some(k) => k < end && last_index_where_sep(s@.take(end as int)) == k,
            None => last_index_where_sep(s@.take(end as int)) == -1,
        },
{
    let mut e = end;
    while e > 0
        invariant
            e <= end <= s@.len(),
            last_index_where_sep(s@.take(end as int)) == last_index_where_sep(s@.take(e as int)),
        decreases e,
    {
        assert(s@.take(e as int).last() == s@[e - 1]);
        if s[e - 1] == '/' || s[e - 1] == '\\' {
            return Some(e - 1);
        }
        assert(s@.take(e as int).drop_last() =~= s@.take((e - 1) as int));
        e = e - 1;
    }
    None
}

/// Directory part of `p`, as characters; see [`parent_dir`].
pub fn parent_chars(p: &[char]) -> (r: Option<Vec<char>>)
    ensures
        match r {
            Some(d) => parent_dir(p@) == Some(d@),
            None => parent_dir(p@) == None::<Seq<char>>,
        },
{
    let tl = trimmed_len(p, p.len());
    assert(p@.take(p@.len() as int) =~= p@);
    let ghost t = p@.take(tl as int);
    if tl == 0 {
        return None;
    }
    match last_sep_before(p, tl) {
        None => Some(Vec::new()),
        Some(k) => {
            let dl = trimmed_len(p, k);
            assert(t.take(k as int) =~= p@.take(k as int));
            if dl == 0 {
                let mut d = Vec::new();
                d.push(p[0]);
                assert(d@ =~= t.take(1));
                Some(d)
            } else {
                let d = slice_chars(p, 0, dl);
                assert(d@ =~= p@.take(dl as int));
                Some(d)
            }
        },
    }
}

/// Joins one relative component onto a directory (as `Path::join` does).
pub open spec fn join_name(dir: Seq<char>, name: Seq<char>) -> Seq<char> {
    push_component(dir, name)
}

/// Where an upload a drive guest sends lands: the sender's file name reduced
/// to a safe bare name (see [`sanitize_filename`]) inside the download
/// directory, or `None` when no safe name remains and the upload is refused.
pub fn drive_upload_target(download_dir: &str, file_name: &str) -> (r: Option<String>)
    ensures
        r is None <==> sanitized_name(file_name@) is None,
        r matches Some(p) ==> p@ == join_name(download_dir@, sanitized_name(file_name@).unwrap()),
{
    match sanitize_filename(file_name) {
        None => None,
        Some(n) => {
            let mut dir = chars_of(download_dir);
            let nv = chars_of(n.as_str());
            push_component_exec(&mut dir, nv.as_slice());
            Some(string_from_chars(dir.as_slice()))
        },
    }
}

/// An upload never leaves the download directory: its path is the
/// directory followed by one bare name, free of separators, not starting
/// with `.`.
pub proof fn lemma_drive_upload_confined(download_dir: Seq<char>, file_name: Seq<char>)
    requires
        sanitized_name(file_name) is Some,
    ensures
        ({
            let n = sanitized_name(file_name).unwrap();
            let t = join_name(download_dir, n);
            &&& t.take(download_dir.len() as int) == download_dir
            &&& t.len() > download_dir.len()
            &&& !n.contains('/') && !n.contains('\\') && !n.contains(':') && n[0] != '.'
            &&& (t == download_dir + n || t == download_dir.push('/') + n)
        }),
{
    let n = sanitized_name(file_name).unwrap();
    let t = join_name(download_dir, n);
    if download_dir.len() == 0 || is_path_sep(download_dir.last()) {
        assert(t =~= download_dir + n);
        assert(t.take(download_dir.len() as int) =~= download_dir);
    } else {
        assert(t =~= download_dir.push('/') + n);
        assert(t.take(download_dir.len() as int) =~= download_dir);
    }
}

pub open spec fn tmp_file_name(transfer_id: Seq<char>) -> Seq<char> {
    "unconfirmed_transfer_"@ + transfer_id + TMP_EXTENSION@
}

/// Where the temporary file of transfer `transfer_id` lives: next to the
/// final file, so the finishing rename never crosses a volume.
pub open spec fn tmp_path_spec(final_path: Seq<char>, transfer_id: Seq<char>) -> Seq<char> {
    let dir = match parent_dir(final_path) {
        Some(d) => d,
        None => seq!['.'],
    };
    join_name(dir, tmp_file_name(transfer_id))
}

/// The temporary path for an incoming transfer, in the directory of its final
/// path.
pub fn tmp_path_for(final_path: &str, transfer_id: &str) -> (r: String)
    ensures
        r@ == tmp_path_spec(final_path@, transfer_id@),
{
    let p = chars_of(final_path);
    let mut dir = match parent_chars(p.as_slice()) {
        Some(d) => d,
        None => {
            let mut d = Vec::new();
            d.push('.');
            d
        },
    };
    let mut name = chars_of("unconfirmed_transfer_");
    let id = chars_of(transfer_id);
    extend_chars(&mut name, id.as_slice());
    let ext = chars_of(TMP_EXTENSION);
    extend_chars(&mut name, ext.as_slice());
    push_component_exec(&mut dir, name.as_slice());
    string_from_chars(dir.as_slice())
}

} // verus!

verus! {

pub open spec fn last_index_of(s: Seq<char>, c: char) -> int
    decreases s.len(),
{
    if s.len() == 0 {
        -1
    } else if s.last() == c {
        s.len() - 1
    } else {
        last_index_of(s.drop_last(), c)
    }
}

proof fn lemma_last_index_of_bounds(s: Seq<char>, c: char)
    ensures
        -1 <= last_index_of(s, c) < s.len(),
    decreases s.len(),
{
    if s.len() > 0 && s.last() != c {
        lemma_last_index_of_bounds(s.drop_last(), c);
    }
}

fn last_index_of_exec(s: &[char], c: char) -> (r: Option<usize>)
    ensures
        match r {
            Some(k) => k < s@.len() && last_index_of(s@, c) == k,
            None => last_index_of(s@, c) == -1,
        },
{
    let mut e = s.len();
    assert(s@.take(e as int) =~= s@);
    while e > 0
        invariant
            e <= s@.len(),
            last_index_of(s@, c) == last_index_of(s@.take(e as int), c),
        decreases e,
    {
        assert(s@.take(e as int).last() == s@[e - 1]);
        if s[e - 1] == c {
            return Some(e - 1);
        }
        assert(s@.take(e as int).drop_last() =~= s@.take((e - 1) as int));
        e = e - 1;
    }
    None
}

/// A file name split into stem and extension at its last `.`; a name whose
/// only `.` is its first character, a name without `.`, and `..` have no
/// extension.
pub open spec fn stem_of(name: Seq<char>) -> Seq<char> {
    let k = last_index_of(name, '.');
    if name == seq!['.', '.'] || k <= 0 {
        name
    } else {
        name.take(k)
    }
}

pub open spec fn extension_of(name: Seq<char>) -> Option<Seq<char>> {
    let k = last_index_of(name, '.');
    if name == seq!['.', '.'] || k <= 0 {
        None
    } else {
        Some(name.skip(k + 1))
    }
}

fn stem_ext(name: &[char]) -> (r: (Vec<char>, Option<Vec<char>>))
    ensures
        r.0@ == stem_of(name@),
        match r.1 {
            Some(e) => extension_of(name@) == Some(e@),
            None => extension_of(name@) == None::<Seq<char>>,
        },
{
    let k = last_index_of_exec(name, '.');
    if is_dots(name, 2) {
        return (slice_chars(name, 0, name.len()), None);
    }
    match k {
        Some(k) => {
            if k == 0 {
                let all = slice_chars(name, 0, name.len());
                assert(all@ =~= name@);
                (all, None)
            } else {
                let n = name.len();
                assert(k < n);
                let st = slice_chars(name, 0, k);
                let ex = slice_chars(name, k + 1, n);
                assert(st@ =~= name@.take(k as int));
                assert(ex@ =~= name@.skip(k + 1));
                (st, Some(ex))
            }
        },
        None => {
            let all = slice_chars(name, 0, name.len());
            assert(all@ =~= name@);
            (all, None)
        },
    }
}

/// The `index`-th alternative for a taken path: `stem (index).ext` in the same
/// directory, or `stem (index)` when the name has no extension.
pub open spec fn numbered_name(name: Seq<char>, index: nat) -> Seq<char> {
    let base = stem_of(name) + " ("@ + decimal(index) + ")"@;
    match extension_of(name) {
        Some(e) => base + "."@ + e,
        None => base,
    }
}

pub open spec fn candidate_path(desired: Seq<char>, index: nat) -> Option<Seq<char>> {
    match parent_dir(desired) {
        None => None,
        Some(dir) => match file_name_of(desired) {
            None => None,
            Some(n) => Some(join_name(dir, numbered_name(n, index))),
        },
    }
}

fn file_name_chars(p: &[char]) -> (r: Option<Vec<char>>)
    ensures
        match r {
            Some(n) => file_name_of(p@) == Some(n@),
            None => file_name_of(p@) == None::<Seq<char>>,
        },
{
    let pieces = split_at_seps(p);
    match last_named_index(&pieces) {
        None => None,
        Some(j) => {
            let n = &pieces[j];
            if is_dots(n.as_slice(), 2) {
                None
            } else {
                Some(slice_chars(n.as_slice(), 0, n.len()))
            }
        },
    }
}

/// The path tried for the `index`-th retry when `desired` is taken; `None`
/// when `desired` has no directory part or no file name.
pub fn free_path_candidate(desired: &str, index: u32) -> (r: Option<String>)
    ensures
        match r {
            Some(s) => candidate_path(desired@, index as nat) == Some(s@),
            None => candidate_path(desired@, index as nat) == None::<Seq<char>>,
        },
{
    let p = chars_of(desired);
    let mut dir = match parent_chars(p.as_slice()) {
        Some(d) => d,
        None => {
            return None;
        },
    };
    let n = match file_name_chars(p.as_slice()) {
        Some(n) => n,
        None => {
            return None;
        },
    };
    let (mut name, ext) = stem_ext(n.as_slice());
    let open = chars_of(" (");
    extend_chars(&mut name, open.as_slice());
    let digits = decimal_chars(index as u64);
    extend_chars(&mut name, digits.as_slice());
    let close = chars_of(")");
    extend_chars(&mut name, close.as_slice());
    match ext {
        Some(e) => {
            let dot = chars_of(".");
            extend_chars(&mut name, dot.as_slice());
            extend_chars(&mut name, e.as_slice());
        },
        None => {},
    }
    push_component_exec(&mut dir, name.as_slice());
    Some(string_from_chars(dir.as_slice()))
}

/// Where a locally modified file is moved when a peer's copy wins:
/// `stem (peer Conflicted Copy).ext` beside it (no `.ext` when the extension
/// is missing or empty).
pub open spec fn conflicted_copy_spec(path: Seq<char>, peer: Seq<char>) -> Seq<char> {
    let dir = match parent_dir(path) {
        Some(d) => d,
        None => Seq::<char>::empty(),
    };
    let name = file_name_of(path);
    let stem = match name {
        Some(n) => stem_of(n),
        None => Seq::<char>::empty(),
    };
    let ext = match name {
        Some(n) => match extension_of(n) {
            Some(e) => e,
            None => Seq::<char>::empty(),
        },
        None => Seq::<char>::empty(),
    };
    let base = stem + " ("@ + peer + " Conflicted Copy)"@;
    join_name(dir, if ext.len() == 0 { base } else { base + "."@ + ext })
}

/// The conflict-copy path for `path` and the peer named `peer_name`.
pub fn conflicted_copy_path(path: &str, peer_name: &str) -> (r: String)
    ensures
        r@ == conflicted_copy_spec(path@, peer_name@),
{
    let p = chars_of(path);
    let mut dir = match parent_chars(p.as_slice()) {
        Some(d) => d,
        None => Vec::new(),
    };
    let (mut name, ext) = match file_name_chars(p.as_slice()) {
        Some(n) => {
            let (st, ex) = stem_ext(n.as_slice());
            let e = match ex {
                Some(e) => e,
                None => Vec::new(),
            };
            (st, e)
        },
        None => (Vec::new(), Vec::new()),
    };
    let open = chars_of(" (");
    extend_chars(&mut name, open.as_slice());
    let peer = chars_of(peer_name);
    extend_chars(&mut name, peer.as_slice());
    let tail = chars_of(" Conflicted Copy)");
    extend_chars(&mut name, tail.as_slice());
    if ext.len() > 0 {
        let dot = chars_of(".");
        extend_chars(&mut name, dot.as_slice());
        extend_chars(&mut name, ext.as_slice());
    }
    push_component_exec(&mut dir, name.as_slice());
    string_from_chars(dir.as_slice())
}

/// Where an incoming synced file goes when it conflicts with the local copy:
/// `stem.sync-conflict-device-stamp.ext`, in the same relative directory.
pub open spec fn sync_conflict_spec(rel: Seq<char>, device: Seq<char>, stamp: Seq<char>) -> Seq<char> {
    let name = file_name_of(rel);
    let stem = match name {
        Some(n) => stem_of(n),
        None => Seq::<char>::empty(),
    };
    let ext = match name {
        Some(n) => match extension_of(n) {
            Some(e) => "."@ + e,
            None => Seq::<char>::empty(),
        },
        None => Seq::<char>::empty(),
    };
    let new_name = stem + ".sync-conflict-"@ + device + "-"@ + stamp + ext;
    let dir = match parent_dir(rel) {
        Some(d) => d,
        None => Seq::<char>::empty(),
    };
    if dir.len() == 0 {
        new_name
    } else {
        dir + "/"@ + new_name
    }
}

/// The relative path an incoming conflicting version is saved under.
pub fn sync_conflict_path(relative_path: &str, device_name: &str, timestamp: &str) -> (r: String)
    ensures
        r@ == sync_conflict_spec(relative_path@, device_name@, timestamp@),
{
    let p = chars_of(relative_path);
    let (mut name, ext) = match file_name_chars(p.as_slice()) {
        Some(n) => {
            let (st, ex) = stem_ext(n.as_slice());
            let e = match ex {
                Some(e) => {
                    let mut d = chars_of(".");
                    extend_chars(&mut d, e.as_slice());
                    d
                },
                None => Vec::new(),
            };
            (st, e)
        },
        None => (Vec::new(), Vec::new()),
    };
    let mid = chars_of(".sync-conflict-");
    extend_chars(&mut name, mid.as_slice());
    let dev = chars_of(device_name);
    extend_chars(&mut name, dev.as_slice());
    let dash = chars_of("-");
    extend_chars(&mut name, dash.as_slice());
    let st = chars_of(timestamp);
    extend_chars(&mut name, st.as_slice());
    extend_chars(&mut name, ext.as_slice());
    let dir = match parent_chars(p.as_slice()) {
        Some(d) => d,
        None => Vec::new(),
    };
    if dir.len() == 0 {
        string_from_chars(name.as_slice())
    } else {
        let mut out = dir;
        let slash = chars_of("/");
        extend_chars(&mut out, slash.as_slice());
        extend_chars(&mut out, name.as_slice());
        string_from_chars(out.as_slice())
    }
}

} // verus!

verus! {

pub open spec fn starts_with_seq(s: Seq<char>, p: Seq<char>) -> bool {
    p.len() <= s.len() && s.take(p.len() as int) == p
}

pub open spec fn ends_with_seq(s: Seq<char>, p: Seq<char>) -> bool {
    p.len() <= s.len() && s.skip(s.len() - p.len()) == p
}

pub open spec fn eq_ignore_ascii_case(a: Seq<char>, b: Seq<char>) -> bool {
    ascii_upper_seq(a) == ascii_upper_seq(b)
}

fn chars_eq(a: &[char], b: &[char]) -> (r: bool)
    ensures
        r == (a@ == b@),
{
    if a.len() != b.len() {
        return false;
    }
    let mut i: usize = 0;
    while i < a.len()
        invariant
            a@.len() == b@.len(),
            i <= a@.len(),
            forall|j: int| 0 <= j < i ==> a@[j] == b@[j],
        decreases a@.len() - i,
    {
        if a[i] != b[i] {
            return false;
        }
        i = i + 1;
    }
    assert(a@ =~= b@);
    true
}

fn eq_ignore_case_exec(a: &[char], b: &str) -> (r: bool)
    ensures
        r == eq_ignore_ascii_case(a@, b@),
{
    let bu = chars_of(b);
    let ua = ascii_upper_chars(a);
    let ub = ascii_upper_chars(bu.as_slice());
    chars_eq(ua.as_slice(), ub.as_slice())
}

/// Names that the folder watcher never reports: transfer and sync temp files,
/// Office lock files and the shell's folder metadata.
pub open spec fn is_system_temp_name(name: Seq<char>) -> bool {
    has_substring(name, ".sync.tmp"@) || starts_with_seq(name, "unconfirmed_transfer_"@)
        || ends_with_seq(name, TMP_EXTENSION@) || starts_with_seq(name, "~$"@)
        || eq_ignore_ascii_case(name, "desktop.ini"@) || eq_ignore_ascii_case(name, "thumbs.db"@)
        || eq_ignore_ascii_case(name, ".ds_store"@)
}

pub open spec fn is_system_temp_path(path: Seq<char>) -> bool {
    match file_name_of(path) {
        Some(n) => is_system_temp_name(n),
        None => false,
    }
}

/// Whether a watched path is a temporary or system file.
pub fn is_system_temp_file(path: &str) -> (r: bool)
    ensures
        r == is_system_temp_path(path@),
{
    let p = chars_of(path);
    let n = match file_name_chars(p.as_slice()) {
        Some(n) => n,
        None => {
            return false;
        },
    };
    let n = n.as_slice();
    let a = chars_of(".sync.tmp");
    let b = chars_of("unconfirmed_transfer_");
    let c = chars_of(TMP_EXTENSION);
    let d = chars_of("~$");
    contains_chars(n, a.as_slice()) || starts_with_chars(n, b.as_slice()) || ends_with_chars(
        n,
        c.as_slice(),
    ) || starts_with_chars(n, d.as_slice()) || eq_ignore_case_exec(n, "desktop.ini")
        || eq_ignore_case_exec(n, "thumbs.db") || eq_ignore_case_exec(n, ".ds_store")
}

/// Names the folder-sync service drops before routing an event: the watcher's
/// list without Office lock files.
pub open spec fn is_sync_artifact_name(name: Seq<char>) -> bool {
    has_substring(name, ".sync.tmp"@) || starts_with_seq(name, "unconfirmed_transfer_"@)
        || ends_with_seq(name, TMP_EXTENSION@) || eq_ignore_ascii_case(name, "desktop.ini"@)
        || eq_ignore_ascii_case(name, "thumbs.db"@) || eq_ignore_ascii_case(name, ".ds_store"@)
}

/// Whether a path's file name (empty when there is none) is a sync artifact.
pub fn is_sync_artifact(path: &str) -> (r: bool)
    ensures
        r == is_sync_artifact_name(
            match file_name_of(path@) {
                Some(n) => n,
                None => Seq::<char>::empty(),
            },
        ),
{
    let p = chars_of(path);
    let n = match file_name_chars(p.as_slice()) {
        Some(n) => n,
        None => Vec::new(),
    };
    let n = n.as_slice();
    let a = chars_of(".sync.tmp");
    let b = chars_of("unconfirmed_transfer_");
    let c = chars_of(TMP_EXTENSION);
    contains_chars(n, a.as_slice()) || starts_with_chars(n, b.as_slice()) || ends_with_chars(
        n,
        c.as_slice(),
    ) || eq_ignore_case_exec(n, "desktop.ini") || eq_ignore_case_exec(n, "thumbs.db")
        || eq_ignore_case_exec(n, ".ds_store")
}

/// Directory entries the boot sweep never indexes.
pub open spec fn is_sweep_skipped_name(name: Seq<char>) -> bool {
    name == "desktop.ini"@ || name == ".sync_trash"@ || starts_with_seq(name, ".sync.tmp."@)
        || starts_with_seq(name, "unconfirmed_transfer_"@) || ends_with_seq(name, TMP_EXTENSION@)
}

pub fn is_sweep_skipped(name: &str) -> (r: bool)
    ensures
        r == is_sweep_skipped_name(name@),
{
    let n = chars_of(name);
    let n = n.as_slice();
    let a = chars_of("desktop.ini");
    let b = chars_of(".sync_trash");
    let c = chars_of(".sync.tmp.");
    let d = chars_of("unconfirmed_transfer_");
    let e = chars_of(TMP_EXTENSION);
    chars_eq(n, a.as_slice()) || chars_eq(n, b.as_slice()) || starts_with_chars(n, c.as_slice())
        || starts_with_chars(n, d.as_slice()) || ends_with_chars(n, e.as_slice())
}


/// An exported entry that landed elsewhere than asked, because the path was
/// taken.
#[derive(Debug, Clone)]
pub struct ExportConflict {
    pub original: String,
    pub resolved: String,
}

impl ExportConflict {
    /// The conflict to report for an entry meant for `desired` and written
    /// to `target`: none when they are the same path.
    pub fn between(desired: &String, target: &String) -> (r: Option<ExportConflict>)
        ensures
            r is None <==> desired@ == target@,
            r matches Some(c) ==> c.original@ == desired@ && c.resolved@ == target@,
    {
        if *desired == *target {
            None
        } else {
            Some(ExportConflict { original: desired.clone(), resolved: target.clone() })
        }
    }
}


/// A leftover partial download: a file whose name ends with the temporary
/// extension (removed at start-up).
pub fn is_leftover_tmp(name: &str) -> (r: bool)
    ensures
        r == ends_with_seq(name@, TMP_EXTENSION@),
{
    let n = chars_of(name);
    let t = chars_of(TMP_EXTENSION);
    ends_with_chars(n.as_slice(), t.as_slice())
}

/// The downloads directory a settings value names: `~/rest` (or `~\rest`)
/// is `rest` under the home directory when one is known (an absolute `rest`
/// stands alone); an empty value is the system downloads directory, else the
/// home directory, else empty; anything else is taken as it is.
pub open spec fn downloads_dir_spec(raw: Seq<char>, home: Option<Seq<char>>, downloads: Option<Seq<char>>) -> Seq<char> {
    if raw.len() >= 2 && raw[0] == '~' && is_path_sep(raw[1]) && home is Some {
        let rest = raw.skip(2);
        if rest.len() > 0 && is_path_sep(rest[0]) {
            rest
        } else {
            push_component(home->0, rest)
        }
    } else if raw.len() == 0 {
        match downloads {
            Some(d) => d,
            None => match home {
                Some(h) => h,
                None => Seq::empty(),
            },
        }
    } else {
        raw
    }
}

pub fn resolve_downloads_dir(raw: &str, home: Option<&str>, downloads: Option<&str>) -> (r: String)
    ensures
        r@ == downloads_dir_spec(raw@, match home {
            Some(h) => Some(h@),
            None => None,
        }, match downloads {
            Some(d) => Some(d@),
            None => None,
        }),
{
    let v = chars_of(raw);
    if v.len() >= 2 && v[0] == '~' && (v[1] == '/' || v[1] == '\\') {
        match home {
            Some(h) => {
                let rest = slice_chars(v.as_slice(), 2, v.len());
                assert(rest@ =~= raw@.skip(2));
                if rest.len() > 0 && (rest[0] == '/' || rest[0] == '\\') {
                    return string_from_chars(rest.as_slice());
                }
                let mut p = chars_of(h);
                push_component_exec(&mut p, rest.as_slice());
                return string_from_chars(p.as_slice());
            },
            None => {},
        }
    }
    if v.len() == 0 {
        return match downloads {
            Some(d) => String::from_str(d),
            None => match home {
                Some(h) => String::from_str(h),
                None => String::new(),
            },
        };
    }
    String::from_str(raw)
}


/// `~/rest` (or `~\\rest`) as `rest` under the home directory when one is
/// known (an absolute `rest` stands alone); anything else as it is.
pub open spec fn tilde_spec(raw: Seq<char>, home: Option<Seq<char>>) -> Seq<char> {
    if raw.len() >= 2 && raw[0] == '~' && is_path_sep(raw[1]) && home is Some {
        let rest = raw.skip(2);
        if rest.len() > 0 && is_path_sep(rest[0]) {
            rest
        } else {
            push_component(home->0, rest)
        }
    } else {
        raw
    }
}

/// The folder the periodic orphan sweep scans: the settings value with a
/// leading `~` expanded.
pub fn resolve_tilde(raw: &str, home: Option<&str>) -> (r: String)
    ensures
        r@ == tilde_spec(raw@, match home {
            Some(h) => Some(h@),
            None => None,
        }),
{
    let v = chars_of(raw);
    if v.len() >= 2 && v[0] == '~' && (v[1] == '/' || v[1] == '\\') {
        match home {
            Some(h) => {
                let rest = slice_chars(v.as_slice(), 2, v.len());
                assert(rest@ =~= raw@.skip(2));
                if rest.len() > 0 && (rest[0] == '/' || rest[0] == '\\') {
                    return string_from_chars(rest.as_slice());
                }
                let mut p = chars_of(h);
                push_component_exec(&mut p, rest.as_slice());
                return string_from_chars(p.as_slice());
            },
            None => {},
        }
    }
    String::from_str(raw)
}

/// A conflict copy keeps the file's name and extension: its file name is the
/// original stem, the `.sync-conflict-device-stamp` marker and, when the
/// original name has an extension, `.` and that extension, whether or not
/// the path has a directory part; a directory part is kept in front.
pub proof fn lemma_sync_conflict_keeps_name(rel: Seq<char>, device: Seq<char>, stamp: Seq<char>)
    ensures
        ({
            let r = sync_conflict_spec(rel, device, stamp);
            &&& file_name_of(rel) matches Some(n) ==> {
                &&& ends_with_seq(r, stem_of(n) + ".sync-conflict-"@ + device + "-"@ + stamp
                    + match extension_of(n) {
                        Some(e) => "."@ + e,
                        None => Seq::<char>::empty(),
                    })
                &&& extension_of(n) matches Some(e) ==> ends_with_seq(r, "."@ + e)
            }
            &&& parent_dir(rel) matches Some(d) ==> d.len() > 0 ==> starts_with_seq(r, d + "/"@)
            &&& file_name_of(rel) matches Some(n) ==> r.len() == (match parent_dir(rel) {
                Some(d) => if d.len() > 0 { d.len() + 1int } else { 0int },
                None => 0int,
            }) + stem_of(n).len() + 15 + device.len() + 1 + stamp.len() + (match extension_of(n) {
                Some(e) => e.len() + 1int,
                None => 0int,
            })
        }),
{
    let r = sync_conflict_spec(rel, device, stamp);
    reveal_strlit(".sync-conflict-");
    reveal_strlit("-");
    reveal_strlit(".");
    reveal_strlit("/");
    let name = file_name_of(rel);
    let stem = match name {
        Some(n) => stem_of(n),
        None => Seq::<char>::empty(),
    };
    let ext = match name {
        Some(n) => match extension_of(n) {
            Some(e) => "."@ + e,
            None => Seq::<char>::empty(),
        },
        None => Seq::<char>::empty(),
    };
    let new_name = stem + ".sync-conflict-"@ + device + "-"@ + stamp + ext;
    let dir = match parent_dir(rel) {
        Some(d) => d,
        None => Seq::<char>::empty(),
    };
    if dir.len() == 0 {
        assert(r == new_name);
        assert(r.skip(r.len() - new_name.len()) =~= new_name);
        assert(r.skip(r.len() - ext.len()) =~= ext);
    } else {
        assert(r == dir + "/"@ + new_name);
        assert(r.skip(r.len() - new_name.len()) =~= new_name);
        assert(r.skip(r.len() - ext.len()) =~= ext);
        assert(r.take((dir + "/"@).len() as int) =~= dir + "/"@);
    }
}

} // verus!
