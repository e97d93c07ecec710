use vstd::prelude::*;

verus! {

/// Characters that a folder name may not hold, on Windows or on Linux.
pub open spec fn is_forbidden_char(c: char) -> bool {
    c == '/' || c == '\\' || c == ':' || c == '*' || c == '?' || c == '"' || c == '<' || c == '>'
        || c == '|'
}

/// A folder name is valid when it is not empty and holds no forbidden character.
pub open spec fn valid_folder_name(s: Seq<char>) -> bool {
    &&& s.len() > 0
    &&& forall|i: int| 0 <= i < s.len() ==> !is_forbidden_char(#[trigger] s[i])
}

fn char_is_forbidden(c: char) -> (r: bool)
    ensures
        r == is_forbidden_char(c),
{
    c == '/' || c == '\\' || c == ':' || c == '*' || c == '?' || c == '"' || c == '<' || c == '>'
        || c == '|'
}

/// Tells whether `name` can be used as the name of a folder on disk.
pub fn is_valid_folder_name(name: &str) -> (r: bool)
    ensures
        r == valid_folder_name(name@),
{
    if name.is_empty() {
        return false;
    }
    let mut ok = true;
    for c in it: name.chars()
        invariant
            it.seq() == name@,
            ok == (forall|j: int| 0 <= j < it.index() ==> !is_forbidden_char(#[trigger] name@[j])),
    {
        if char_is_forbidden(c) {
            ok = false;
        }
    }
    ok
}


/// The path `name` reached from `parent`, as a Unix path buffer's `push` forms it: an
/// absolute `name` replaces `parent`; otherwise a separator is put between them
/// unless `parent` is empty or already ends with one.
pub open spec fn joined(parent: Seq<char>, name: Seq<char>) -> Seq<char> {
    if name.len() > 0 && name[0] == '/' {
        name
    } else if parent.len() > 0 && parent.last() != '/' {
        parent + seq!['/'] + name
    } else {
        parent + name
    }
}

/// The path `name` reached from `parent`.
pub fn join_path(parent: &str, name: &str) -> (r: String)
    ensures
        r@ == joined(parent@, name@),
{
    let nn = name.unicode_len();
    if nn > 0 && name.get_char(0) == '/' {
        return name.to_string();
    }
    let pn = parent.unicode_len();
    let mut r = parent.to_string();
    if pn > 0 && parent.get_char(pn - 1) != '/' {
        r.append("/");
        proof {
            reveal_strlit("/");
        }
    }
    r.append(name);
    r
}

/// Whether something exists at `path` on disk, as `std::path::Path::exists` says.
/// Nothing is stated of the result: it depends on the disk at the time of the call.
#[verifier::external_body]
fn path_exists(path: &str) -> bool {
    std::path::Path::new(path).exists()
}

/// Tells whether `parent` already holds an entry named `name`.
/// What comes back depends on the disk; the path asked about is `joined(parent, name)`.
pub fn folder_exists(parent: &str, name: &str) -> bool {
    let path = join_path(parent, name);
    path_exists(path.as_str())
}

} // verus!

verus! {

/// The pieces of `s` between its `/` separators, empty ones included.
pub open spec fn segments(s: Seq<char>) -> Seq<Seq<char>>
    decreases s.len(),
{
    if s.len() == 0 {
        seq![Seq::empty()]
    } else {
        let t = segments(s.drop_last());
        if s.last() == '/' {
            t.push(Seq::empty())
        } else {
            t.update(t.len() - 1, t.last().push(s.last()))
        }
    }
}

/// Whether piece `i` of a path is one of its components: empty pieces (repeated or
/// trailing separators) are not, and neither is `.` unless it begins the path.
pub open spec fn kept_segment(segs: Seq<Seq<char>>, i: int) -> bool {
    segs[i].len() > 0 && (segs[i] != seq!['.'] || i == 0)
}

/// The components among the first `n` pieces, in their order.
pub open spec fn kept_components(segs: Seq<Seq<char>>, n: int) -> Seq<Seq<char>>
    decreases n,
{
    if n <= 0 {
        Seq::empty()
    } else {
        let r = kept_components(segs, n - 1);
        if kept_segment(segs, n - 1) {
            r.push(segs[n - 1])
        } else {
            r
        }
    }
}

/// A path as a Unix path's components give it: whether it starts at the root, and its
/// other components (repeated and trailing separators, and `.` past the start, left out).
pub open spec fn path_components(s: Seq<char>) -> (bool, Seq<Seq<char>>) {
    (s.len() > 0 && s[0] == '/', kept_components(segments(s), segments(s).len() as int))
}

/// Two paths name the same place as `std::path::Path`'s equality sees it: their
/// components are the same.
pub open spec fn same_path_spec(a: Seq<char>, b: Seq<char>) -> bool {
    path_components(a) == path_components(b)
}

/// The texts of some vectors of characters.
pub open spec fn char_vecs(v: Seq<Vec<char>>) -> Seq<Seq<char>> {
    v.map_values(|x: Vec<char>| x@)
}

proof fn lemma_segments_len(s: Seq<char>)
    ensures
        segments(s).len() >= 1,
    decreases s.len(),
{
    if s.len() > 0 {
        lemma_segments_len(s.drop_last());
    }
}

proof fn lemma_kept_prefix(a: Seq<Seq<char>>, b: Seq<Seq<char>>, n: int)
    requires
        0 <= n <= a.len(),
        n <= b.len(),
        forall|i: int| 0 <= i < n ==> a[i] == b[i],
    ensures
        kept_components(a, n) == kept_components(b, n),
    decreases n,
{
    if n > 0 {
        lemma_kept_prefix(a, b, n - 1);
    }
}

fn is_dot(v: &Vec<char>) -> (r: bool)
    ensures
        r == (v@ == seq!['.']),
{
    if v.len() == 1 && v[0] == '.' {
        assert(v@ =~= seq!['.']);
        true
    } else {
        proof {
            if v@ == seq!['.'] {
                assert(v@.len() == 1 && v@[0] == '.');
            }
        }
        false
    }
}

/// The components of the path `s`, as `std::path::Path::components` gives them on Unix.
fn components_of(s: &str) -> (r: (bool, Vec<Vec<char>>))
    ensures
        (r.0, char_vecs(r.1@)) == path_components(s@),
{
    let absolute = s.unicode_len() > 0 && s.get_char(0) == '/';
    let ghost sv = s@;
    let mut done: Vec<Vec<char>> = Vec::new();
    let mut cur: Vec<char> = Vec::new();
    let mut first = true;
    let ghost mut seg_idx: int = 0;
    proof {
        assert(sv.take(0) =~= Seq::<char>::empty());
        assert(segments(sv.take(0)) == seq![Seq::<char>::empty()]);
        assert(cur@ =~= Seq::<char>::empty());
    }
    for c in it: s.chars()
        invariant
            it.seq() == sv,
            segments(sv.take(it.index() as int)).len() == seg_idx + 1,
            segments(sv.take(it.index() as int)).last() == cur@,
            char_vecs(done@) == kept_components(segments(sv.take(it.index() as int)), seg_idx),
            first == (seg_idx == 0),
            seg_idx >= 0,
    {
        let ghost k = it.index() as int;
        let ghost old_segs = segments(sv.take(k));
        proof {
            assert(sv.take(k + 1).drop_last() =~= sv.take(k));
            assert(sv.take(k + 1).last() == c);
        }
        let ghost new_segs = segments(sv.take(k + 1));
        if c == '/' {
            let keep = cur.len() > 0 && (!is_dot(&cur) || first);
            proof {
                assert(new_segs == old_segs.push(Seq::<char>::empty()));
                assert(keep == kept_segment(new_segs, seg_idx));
                lemma_kept_prefix(old_segs, new_segs, seg_idx);
                assert(kept_components(new_segs, seg_idx + 1) == if keep {
                    kept_components(new_segs, seg_idx).push(new_segs[seg_idx])
                } else {
                    kept_components(new_segs, seg_idx)
                });
            }
            let mut fresh: Vec<char> = Vec::new();
            std::mem::swap(&mut fresh, &mut cur);
            if keep {
                let ghost before = done@;
                done.push(fresh);
                proof {
                    assert(char_vecs(done@) =~= char_vecs(before).push(new_segs[seg_idx]));
                }
            }
            first = false;
            proof {
                seg_idx = seg_idx + 1;
                assert(cur@ =~= Seq::<char>::empty());
            }
        } else {
            cur.push(c);
            proof {
                assert(new_segs == old_segs.update(seg_idx, old_segs[seg_idx].push(c)));
                lemma_kept_prefix(old_segs, new_segs, seg_idx);
            }
        }
    }
    proof {
        assert(sv.take(sv.len() as int) =~= sv);
    }
    let keep = cur.len() > 0 && (!is_dot(&cur) || first);
    let ghost segs = segments(sv);
    let ghost before = done@;
    if keep {
        done.push(cur);
        proof {
            assert(char_vecs(done@) =~= char_vecs(before).push(segs[seg_idx]));
        }
    }
    proof {
        assert(keep == kept_segment(segs, seg_idx));
        assert(char_vecs(done@) == kept_components(segs, segs.len() as int));
    }
    (absolute, done)
}


fn same_chars(a: &Vec<char>, b: &Vec<char>) -> (r: bool)
    ensures
        r == (a@ == b@),
{
    if a.len() != b.len() {
        return false;
    }
    let mut i: usize = 0;
    while i < a.len()
        invariant
            a@.len() == b@.len(),
            0 <= i <= a@.len(),
            forall|j: int| 0 <= j < i ==> a@[j] == b@[j],
        decreases a@.len() - i,
    {
        if a[i] != b[i] {
            return false;
        }
        i = i + 1;
    }
    assert(a@ =~= b@);
    true
}

/// Whether `a` and `b` name the same place as `std::path::Path`'s equality sees it:
/// the same components, so `a/b`, `a//b`, `a/./b` and `a/b/` are one path.
pub fn same_path(a: &str, b: &str) -> (r: bool)
    ensures
        r == same_path_spec(a@, b@),
{
    let (abs_a, ca) = components_of(a);
    let (abs_b, cb) = components_of(b);
    if abs_a != abs_b || ca.len() != cb.len() {
        proof {
            if ca.len() != cb.len() {
                assert(char_vecs(ca@).len() != char_vecs(cb@).len());
            }
        }
        return false;
    }
    let mut i: usize = 0;
    while i < ca.len()
        invariant
            ca@.len() == cb@.len(),
            0 <= i <= ca@.len(),
            forall|j: int| 0 <= j < i ==> ca@[j]@ == cb@[j]@,
            (abs_a, char_vecs(ca@)) == path_components(a@),
            (abs_b, char_vecs(cb@)) == path_components(b@),
            abs_a == abs_b,
        decreases ca@.len() - i,
    {
        if !same_chars(&ca[i], &cb[i]) {
            proof {
                assert(char_vecs(ca@)[i as int] == ca@[i as int]@);
                assert(char_vecs(cb@)[i as int] == cb@[i as int]@);
                assert(char_vecs(ca@) != char_vecs(cb@));
            }
            return false;
        }
        i = i + 1;
    }
    assert(char_vecs(ca@) =~= char_vecs(cb@));
    true
}

} // verus!
