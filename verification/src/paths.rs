//! Slash-separated paths held as text: their segments, file names and extensions,
//! as `std::path::Path` reads them on Unix.
use vstd::prelude::*;
use crate::text::chars_of;
use crate::text::find_char;
use crate::text::is_lit;
use crate::text::lead;
use crate::text::slice_chars;
use crate::text::trail;
use crate::text::views;
use crate::text::CharClass;

verus! {

/// The pieces of `s` between occurrences of `c` (`str::split`).
pub open spec fn split_char(s: Seq<char>, c: char) -> Seq<Seq<char>>
    decreases s.len(),
{
    if s.len() == 0 {
        seq![s]
    } else {
        let k: int = lead(s, CharClass::Except(c)) as int;
        if 0 <= k < s.len() {
            seq![s.take(k)] + split_char(s.skip(k + 1), c)
        } else {
            seq![s]
        }
    }
}

/// The pieces of `v` between occurrences of `c`.
pub fn split_chars(v: &[char], c: char) -> (r: Vec<Vec<char>>)
    ensures
        views(r@) == split_char(v@, c),
{
    let mut out: Vec<Vec<char>> = Vec::new();
    let mut i: usize = 0;
    assert(v@.skip(0) =~= v@);
    loop
        invariant
            i <= v@.len(),
            views(out@) + split_char(v@.skip(i as int), c) == split_char(v@, c),
        decreases v@.len() - i,
    {
        let j = find_char(v, i, v.len(), c);
        let ghost s = v@.skip(i as int);
        let ghost prev = out@;
        assert(s =~= v@.subrange(i as int, v@.len() as int));
        let piece = slice_chars(v, i, j);
        assert(s.take(j - i) =~= piece@);
        out.push(piece);
        assert(views(out@) =~= views(prev).push(piece@));
        if j < v.len() {
            assert(s.skip(j - i + 1) =~= v@.skip(j + 1));
            i = j + 1;
        } else {
            assert(split_char(s, c) == seq![s]);
            assert(s =~= piece@);
            assert(views(out@) =~= views(prev) + split_char(s, c));
            return out;
        }
    }
}

/// Whether some `/`-separated segment of `path` is one of `names`.
pub open spec fn has_segment_in(path: Seq<char>, names: Seq<Seq<char>>) -> bool {
    exists|i: int| 0 <= i < split_char(path, '/').len() && names.contains(
        #[trigger] split_char(path, '/')[i],
    )
}

/// Whether `path` has a segment equal to one of `names`.
pub fn has_segment(path: &str, names: &Vec<&'static str>) -> (r: bool)
    ensures
        r == has_segment_in(path@, names@.map_values(|s: &str| s@)),
{
    let ghost nv = names@.map_values(|s: &str| s@);
    let v = chars_of(path);
    let segs = split_chars(v.as_slice(), '/');
    let mut i: usize = 0;
    while i < segs.len()
        invariant
            i <= segs@.len(),
            views(segs@) == split_char(path@, '/'),
            nv == names@.map_values(|s: &str| s@),
            forall|k: int| 0 <= k < i ==> !nv.contains(#[trigger] views(segs@)[k]),
        decreases segs@.len() - i,
    {
        let mut j: usize = 0;
        while j < names.len()
            invariant
                i < segs@.len(),
                j <= names@.len(),
                views(segs@) == split_char(path@, '/'),
                nv == names@.map_values(|s: &str| s@),
                forall|m: int| 0 <= m < j ==> nv[m] != segs@[i as int]@,
            decreases names@.len() - j,
        {
            if is_lit(segs[i].as_slice(), names[j]) {
                assert(nv[j as int] == views(segs@)[i as int]);
                assert(nv.contains(split_char(path@, '/')[i as int]));
                return true;
            }
            j += 1;
        }
        assert(views(segs@)[i as int] == segs@[i as int]@);
        i += 1;
    }
    false
}

/// Whether a segment names a component (neither empty nor `.`).
pub open spec fn is_component(seg: Seq<char>) -> bool {
    seg.len() > 0 && seg != seq!['.']
}

/// The last component among the first `k` segments.
pub open spec fn last_component(segs: Seq<Seq<char>>, k: int) -> Option<Seq<char>>
    decreases k,
{
    if k <= 0 {
        None
    } else if is_component(segs[k - 1]) {
        Some(segs[k - 1])
    } else {
        last_component(segs, k - 1)
    }
}

/// `Path::file_name`: the last component of `path`, unless it is `..`.
pub open spec fn file_name(path: Seq<char>) -> Option<Seq<char>> {
    let segs = split_char(path, '/');
    match last_component(segs, segs.len() as int) {
        Some(n) => if n == seq!['.', '.'] {
            None
        } else {
            Some(n)
        },
        None => None,
    }
}

/// `Path::extension`: what follows the last `.` of the file name, unless the name has no
/// `.` or its only `.` is its first character.
pub open spec fn path_extension(path: Seq<char>) -> Option<Seq<char>> {
    match file_name(path) {
        Some(n) => {
            let t = trail(n, CharClass::Except('.'));
            if t >= n.len() || t + 1 == n.len() {
                None
            } else {
                Some(n.skip(n.len() - t))
            }
        },
        None => None,
    }
}

/// The trailing run of class `cls` has length at most the length of `s`, and the character
/// before it, if any, lies outside `cls`.
pub proof fn lemma_trail_bounds(s: Seq<char>, cls: CharClass)
    ensures
        trail(s, cls) <= s.len(),
        forall|i: int| s.len() - trail(s, cls) <= i < s.len() ==> crate::text::in_class(#[trigger] s[i], cls),
        trail(s, cls) < s.len() ==> !crate::text::in_class(s[s.len() - trail(s, cls) - 1], cls),
    decreases s.len(),
{
    if s.len() > 0 && crate::text::in_class(s.last(), cls) {
        let t = s.drop_last();
        lemma_trail_bounds(t, cls);
        assert forall|i: int| s.len() - trail(s, cls) <= i < s.len() implies crate::text::in_class(
            #[trigger] s[i],
            cls,
        ) by {
            if i < s.len() - 1 {
                assert(s[i] == t[i]);
            }
        }
        if trail(s, cls) < s.len() {
            assert(s[s.len() - trail(s, cls) - 1] == t[t.len() - trail(t, cls) - 1]);
        }
    }
}

/// The file name of `path`, as `Path::file_name` finds it.
pub fn file_name_of(path: &str) -> (r: Option<Vec<char>>)
    ensures
        r matches Some(n) ==> file_name(path@) == Some(n@),
        r is None ==> file_name(path@) is None,
{
    let v = chars_of(path);
    let segs = split_chars(v.as_slice(), '/');
    let ghost sv = views(segs@);
    let mut k = segs.len();
    while k > 0 && !(segs[k - 1].len() > 0 && !is_lit(segs[k - 1].as_slice(), "."))
        invariant
            k <= segs@.len(),
            sv == views(segs@),
            last_component(sv, k as int) == last_component(sv, segs@.len() as int),
        decreases k,
    {
        proof {
            assert(sv[k - 1] == segs@[k - 1]@);
            reveal_strlit(".");
            assert("."@ =~= seq!['.']);
        }
        k -= 1;
    }
    if k == 0 {
        return None;
    }
    proof {
        assert(sv[k - 1] == segs@[k - 1]@);
        reveal_strlit(".");
        assert("."@ =~= seq!['.']);
    }
    let name = segs[k - 1].as_slice();
    if is_lit(name, "..") {
        proof {
            reveal_strlit("..");
            assert(".."@ =~= seq!['.', '.']);
        }
        return None;
    }
    proof {
        reveal_strlit("..");
        assert(".."@ =~= seq!['.', '.']);
    }
    Some(slice_chars(name, 0, name.len()))
}

/// The extension of `path`, as `Path::extension` finds it.
pub fn extension_of(path: &str) -> (r: Option<Vec<char>>)
    ensures
        r matches Some(e) ==> path_extension(path@) == Some(e@),
        r is None ==> path_extension(path@) is None,
{
    let name = match file_name_of(path) {
        Some(n) => n,
        None => {
            return None;
        },
    };
    let name = name.as_slice();
    let mut d = name.len();
    while d > 0 && name[d - 1] != '.'
        invariant
            d <= name@.len(),
            forall|i: int| d <= i < name@.len() ==> name@[i] != '.',
        decreases d,
    {
        d -= 1;
    }
    let ghost t = name@.len() - d;
    proof {
        assert forall|i: int| name@.len() - t <= i < name@.len() implies crate::text::in_class(
            #[trigger] name@[i],
            CharClass::Except('.'),
        ) by {}
        crate::text::lemma_trail_is(name@, CharClass::Except('.'), t);
    }
    if d <= 1 {
        return None;
    }
    Some(slice_chars(name, d, name.len()))
}

} // verus!
