//! The command line's own logic: its usage text, how it reads its flags, and where it keeps
//! the database and the index when no flag says otherwise.
use vstd::prelude::*;
use crate::parser::join_lines;
use crate::parser::join_range;
use crate::text::chars_of;
use crate::text::push_all;
use crate::text::string_of;
use crate::text::views;

verus! {

/// The lines of the usage text.
pub open spec fn usage_lines() -> Seq<Seq<char>> {
    seq![
        "seekr-cli commands:"@,
        "  snapshot --root <path> [--db <path>] [--index-dir <path>]"@,
        "  search-text --root <path> --query <text> [--limit <n>] [--db <path>] [--index-dir <path>]"@,
        "  search-symbols --root <path> --query <text> [--limit <n>] [--db <path>] [--index-dir <path>]"@,
    ]
}

/// The usage text: its lines joined by newlines.
pub fn usage() -> (r: String)
    ensures
        r@ == join_lines(usage_lines()),
{
    let mut ls: Vec<Vec<char>> = Vec::new();
    ls.push(chars_of("seekr-cli commands:"));
    ls.push(chars_of("  snapshot --root <path> [--db <path>] [--index-dir <path>]"));
    ls.push(
        chars_of(
            "  search-text --root <path> --query <text> [--limit <n>] [--db <path>] [--index-dir <path>]",
        ),
    );
    ls.push(
        chars_of(
            "  search-symbols --root <path> --query <text> [--limit <n>] [--db <path>] [--index-dir <path>]",
        ),
    );
    assert(views(ls@).subrange(0, 4) =~= usage_lines());
    let joined = join_range(&ls, 0, 4);
    string_of(joined.as_slice())
}

/// The texts of `args`.
pub open spec fn arg_texts(args: Seq<String>) -> Seq<Seq<char>> {
    args.map_values(|a: String| a@)
}

/// The text of an optional string.
pub open spec fn opt_text(o: Option<String>) -> Option<Seq<char>> {
    match o {
        Some(s) => Some(s@),
        None => None,
    }
}

/// The argument right after the first occurrence of `key`, from position `i` on, that has
/// an argument after it.
pub open spec fn arg_value_from(args: Seq<Seq<char>>, key: Seq<char>, i: int) -> Option<Seq<char>>
    decreases args.len() - i,
{
    if i < 0 || i + 1 >= args.len() {
        None
    } else if args[i] == key {
        Some(args[i + 1])
    } else {
        arg_value_from(args, key, i + 1)
    }
}

/// The value given to the flag `key`: the argument after its first occurrence that has one.
pub open spec fn spec_arg_value(args: Seq<Seq<char>>, key: Seq<char>) -> Option<Seq<char>> {
    arg_value_from(args, key, 0)
}

/// The value given to the flag `key`, if any.
pub fn arg_value(args: &[String], key: &str) -> (r: Option<String>)
    ensures
        opt_text(r) == spec_arg_value(arg_texts(args@), key@),
{
    let ghost a = arg_texts(args@);
    if args.len() < 2 {
        return None;
    }
    let k = key.to_owned();
    let mut i: usize = 0;
    while i < args.len() - 1
        invariant
            2 <= args@.len(),
            i <= args@.len() - 1,
            a == arg_texts(args@),
            k@ == key@,
            arg_value_from(a, key@, 0) == arg_value_from(a, key@, i as int),
        decreases args@.len() - i,
    {
        if args[i] == k {
            let v = args[i + 1].clone();
            assert(a[i as int] == args@[i as int]@);
            assert(a[i + 1] == args@[i + 1]@);
            return Some(v);
        }
        assert(a[i as int] == args@[i as int]@);
        i += 1;
    }
    None
}

/// Whether `c` is an ASCII digit.
pub open spec fn is_digit(c: char) -> bool {
    '0' <= c <= '9'
}

/// The number that the decimal digits `d` spell.
pub open spec fn digits_value(d: Seq<char>) -> int
    decreases d.len(),
{
    if d.len() == 0 {
        0
    } else {
        digits_value(d.drop_last()) * 10 + (d.last() as int - '0' as int)
    }
}

/// What `str::parse::<usize>` gives for `s`: an optional `+` followed by one or more ASCII
/// digits whose value fits a `usize`; anything else is refused.
pub open spec fn spec_parse_usize(s: Seq<char>) -> Option<usize> {
    let d = unsigned_digits(s);
    if d.len() > 0 && all_digits(d) && digits_value(d) <= usize::MAX {
        Some(digits_value(d) as usize)
    } else {
        None
    }
}

/// `s` without one leading `+`, if it has one.
pub open spec fn unsigned_digits(s: Seq<char>) -> Seq<char> {
    if s.len() > 0 && s[0] == '+' {
        s.skip(1)
    } else {
        s
    }
}

/// Whether every character of `d` is an ASCII digit.
pub open spec fn all_digits(d: Seq<char>) -> bool {
    forall|i: int| 0 <= i < d.len() ==> is_digit(#[trigger] d[i])
}

proof fn lemma_digits_value_grows(d: Seq<char>, i: int)
    requires
        0 <= i <= d.len(),
        forall|j: int| 0 <= j < d.len() ==> is_digit(#[trigger] d[j]),
    ensures
        digits_value(d.take(i)) <= digits_value(d),
        0 <= digits_value(d.take(i)),
    decreases d.len() - i,
{
    if i < d.len() {
        lemma_digits_value_grows(d, i + 1);
        assert(d.take(i + 1).drop_last() =~= d.take(i));
        assert(is_digit(d[i]));
        assert(digits_value(d.take(i + 1)) == digits_value(d.take(i)) * 10 + (d[i] as int - '0' as int));
    } else {
        assert(d.take(i) =~= d);
        lemma_digits_value_nonneg(d);
    }
}

proof fn lemma_digits_value_nonneg(d: Seq<char>)
    requires
        forall|j: int| 0 <= j < d.len() ==> is_digit(#[trigger] d[j]),
    ensures
        0 <= digits_value(d),
    decreases d.len(),
{
    if d.len() > 0 {
        assert(is_digit(d[d.len() - 1]));
        lemma_digits_value_nonneg(d.drop_last());
    }
}

/// `str::parse::<usize>` with its error dropped: an optional `+` followed by one or more
/// ASCII digits whose value fits a `usize`; anything else gives `None`.
pub fn parse_usize(s: &str) -> (r: Option<usize>)
    ensures
        r == spec_parse_usize(s@),
{
    let v = chars_of(s);
    let start: usize = if v.len() > 0 && v[0] == '+' { 1 } else { 0 };
    let ghost d = unsigned_digits(s@);
    assert(d =~= v@.skip(start as int));
    if start >= v.len() {
        return None;
    }
    let mut value: usize = 0;
    let mut i: usize = start;
    while i < v.len()
        invariant
            start <= i <= v@.len(),
            d == v@.skip(start as int),
            d == unsigned_digits(s@),
            v@ == s@,
            forall|j: int| 0 <= j < i - start ==> is_digit(#[trigger] d[j]),
            value == digits_value(d.take(i - start)),
        decreases v@.len() - i,
    {
        let c = v[i];
        assert(d[i - start] == c);
        if !('0' <= c && c <= '9') {
            assert(!is_digit(d[i - start]));
            assert(!all_digits(d));
            assert(spec_parse_usize(s@) is None);
            return None;
        }
        let digit = (c as u32 - '0' as u32) as usize;
        assert(d.take(i - start + 1).drop_last() =~= d.take(i - start));
        assert(digits_value(d.take(i - start + 1)) == value * 10 + digit);
        value = match value.checked_mul(10) {
            Some(x) => match x.checked_add(digit) {
                Some(y) => y,
                None => {
                    proof {
                        assert(x == value * 10);
                        assert(digits_value(d.take(i - start + 1)) > usize::MAX);
                        if all_digits(d) {
                            lemma_digits_value_grows(d, i - start + 1);
                        }
                        assert(spec_parse_usize(s@) is None);
                    }
                    return None;
                },
            },
            None => {
                proof {
                    if all_digits(d) {
                        lemma_digits_value_grows(d, i - start + 1);
                        lemma_digits_value_nonneg(d.take(i - start));
                        assert(value * 10 + digit >= value * 10);
                    }
                }
                return None;
            },
        };
        i += 1;
    }
    assert(d.take(i - start) =~= d);
    Some(value)
}

/// How many results to show when `--limit` is missing or is not a number.
pub const DEFAULT_LIMIT: usize = 50;

/// The result limit: the value of `--limit` when it parses as a `usize`, otherwise the default.
pub open spec fn spec_parse_limit(args: Seq<Seq<char>>) -> usize {
    match spec_arg_value(args, "--limit"@) {
        Some(v) => match spec_parse_usize(v) {
            Some(n) => n,
            None => DEFAULT_LIMIT,
        },
        None => DEFAULT_LIMIT,
    }
}

/// The result limit that the arguments ask for.
pub fn parse_limit(args: &[String]) -> (r: usize)
    ensures
        r == spec_parse_limit(arg_texts(args@)),
{
    match arg_value(args, "--limit") {
        Some(v) => match parse_usize(v.as_str()) {
            Some(n) => n,
            None => DEFAULT_LIMIT,
        },
        None => DEFAULT_LIMIT,
    }
}

/// `base` joined with the relative path `part`, as `Path::join` does it: a `/` goes between
/// them unless `base` is empty or already ends in one.
pub open spec fn path_join(base: Seq<char>, part: Seq<char>) -> Seq<char> {
    if base.len() == 0 || base.last() == '/' {
        base + part
    } else {
        base + seq!['/'] + part
    }
}

/// `base` joined with the relative path `part`.
pub fn join_path(base: &str, part: &str) -> (r: String)
    ensures
        r@ == path_join(base@, part@),
{
    let mut v = chars_of(base);
    if v.len() > 0 && v[v.len() - 1] != '/' {
        v.push('/');
    }
    let p = chars_of(part);
    push_all(&mut v, p.as_slice());
    string_of(v.as_slice())
}

/// The database and index paths: those that `--db` and `--index-dir` give, else
/// `seekr.db` and `seekr-index` under the `.seekr` directory of `root`.
pub open spec fn spec_resolve_paths(args: Seq<Seq<char>>, root: Seq<char>) -> (Seq<char>, Seq<char>) {
    let base = path_join(root, ".seekr"@);
    (
        match spec_arg_value(args, "--db"@) {
            Some(p) => p,
            None => path_join(base, "seekr.db"@),
        },
        match spec_arg_value(args, "--index-dir"@) {
            Some(p) => p,
            None => path_join(base, "seekr-index"@),
        },
    )
}

/// Where the database and the index live, for the given arguments and workspace root.
pub fn resolve_paths(args: &[String], root: &str) -> (r: (String, String))
    ensures
        (r.0@, r.1@) == spec_resolve_paths(arg_texts(args@), root@),
{
    let base = join_path(root, ".seekr");
    let db_path = match arg_value(args, "--db") {
        Some(p) => p,
        None => join_path(base.as_str(), "seekr.db"),
    };
    let index_dir = match arg_value(args, "--index-dir") {
        Some(p) => p,
        None => join_path(base.as_str(), "seekr-index"),
    };
    (db_path, index_dir)
}

} // verus!
