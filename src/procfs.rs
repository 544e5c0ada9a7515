//! Reading process statistics out of `/proc` texts.
use vstd::prelude::*;
use crate::rules::id_views;
use crate::scoreboard::{all_digits, digits_value};

verus! {

/// The lines of a text, as `str::lines` splits it.
pub uninterp spec fn lines_of(text: Seq<char>) -> Seq<Seq<char>>;

/// The whitespace-separated fields of a text, as `str::split_whitespace`
/// gives them.
pub uninterp spec fn fields_of(text: Seq<char>) -> Seq<Seq<char>>;

/// Relies on `str::lines`: the lines of the text, without their line endings.
#[verifier::external_body]
fn text_lines(text: &str) -> (r: Vec<String>)
    ensures
        id_views(r@) == lines_of(text@),
{
    text.lines().map(|l| l.to_string()).collect()
}

/// Relies on `str::split_whitespace`: the fields between runs of whitespace.
#[verifier::external_body]
fn text_fields(text: &str) -> (r: Vec<String>)
    ensures
        id_views(r@) == fields_of(text@),
{
    text.split_whitespace().map(|f| f.to_string()).collect()
}

/// The `u64` a string writes in decimal, with an optional `+`, if in range.
pub open spec fn decimal_u64(s: Seq<char>) -> Option<u64> {
    let digits = if s.len() > 0 && s[0] == '+' {
        s.skip(1)
    } else {
        s
    };
    if all_digits(digits) && digits_value(digits) <= u64::MAX {
        Some(digits_value(digits) as u64)
    } else {
        None
    }
}

/// Relies on `str::parse::<u64>` (u64's `FromStr`): an optional `+`
/// followed by one or more ASCII digits, whose value fits; `Err` otherwise.
#[verifier::external_body]
fn parse_u64(text: &str) -> (r: Option<u64>)
    ensures
        r == decimal_u64(text@),
{
    text.parse::<u64>().ok()
}

pub open spec fn starts_with(s: Seq<char>, prefix: Seq<char>) -> bool {
    s.len() >= prefix.len() && s.subrange(0, prefix.len() as int) == prefix
}

/// Whether `s` starts with `prefix`.
pub fn has_prefix(s: &str, prefix: &str) -> (r: bool)
    ensures
        r == starts_with(s@, prefix@),
{
    let n = s.unicode_len();
    let m = prefix.unicode_len();
    if n < m {
        return false;
    }
    let head = s.substring_char(0, m).to_owned();
    head == prefix.to_owned()
}

/// The sum of the fields that read as `u64`, the others counting as zero.
pub open spec fn field_sum(fields: Seq<Seq<char>>) -> int
    decreases fields.len(),
{
    if fields.len() == 0 {
        0
    } else {
        field_sum(fields.drop_last()) + match decimal_u64(fields.last()) {
            Some(v) => v as int,
            None => 0,
        }
    }
}

proof fn lemma_field_sum_nonneg(fields: Seq<Seq<char>>)
    ensures
        field_sum(fields) >= 0,
    decreases fields.len(),
{
    if fields.len() > 0 {
        lemma_field_sum_nonneg(fields.drop_last());
    }
}

/// The fields after the first.
pub open spec fn after_first(fields: Seq<Seq<char>>) -> Seq<Seq<char>> {
    if fields.len() == 0 {
        fields
    } else {
        fields.skip(1)
    }
}

/// `x`, or `u64::MAX` where `x` is larger.
pub open spec fn saturate(x: int) -> u64 {
    if x > u64::MAX {
        u64::MAX
    } else {
        x as u64
    }
}

/// The index of the first line that starts with `prefix`.
pub open spec fn is_first_line_with(lines: Seq<Seq<char>>, prefix: Seq<char>, i: int) -> bool {
    &&& 0 <= i < lines.len()
    &&& starts_with(lines[i], prefix)
    &&& forall|j: int| 0 <= j < i ==> !starts_with(#[trigger] lines[j], prefix)
}

pub open spec fn cpu_prefix() -> Seq<char> {
    "cpu "@
}

/// The total jiffies of a `/proc/stat` text: on the first line starting
/// with `cpu `, the sum of the numeric fields after the first, saturating at
/// `u64::MAX`; `None` without such a line.
pub fn total_jiffies(stat: &str) -> (r: Option<u64>)
    ensures
        match r {
            Some(v) => exists|i: int|
                is_first_line_with(lines_of(stat@), cpu_prefix(), i) && v == saturate(
                    field_sum(after_first(fields_of(#[trigger] lines_of(stat@)[i]))),
                ),
            None => forall|i: int|
                0 <= i < lines_of(stat@).len() ==> !starts_with(#[trigger] lines_of(stat@)[i], cpu_prefix()),
        },
{
    proof {
        reveal_strlit("cpu ");
    }
    let lines = text_lines(stat);
    let ghost ls = lines_of(stat@);
    let mut i: usize = 0;
    while i < lines.len()
        invariant
            i <= lines.len(),
            ls == lines_of(stat@),
            id_views(lines@) == ls,
            forall|j: int| 0 <= j < i ==> !starts_with(#[trigger] ls[j], cpu_prefix()),
        decreases lines.len() - i,
    {
        assert(ls[i as int] == lines@[i as int]@);
        if has_prefix(lines[i].as_str(), "cpu ") {
            let fields = text_fields(lines[i].as_str());
            let ghost fs = fields_of(ls[i as int]);
            assert(is_first_line_with(ls, cpu_prefix(), i as int));
            if fields.len() == 0 {
                assert(field_sum(after_first(fs)) == 0);
                return Some(0);
            }
            let mut sum: u64 = 0;
            let mut k: usize = 1;
            assert(fs.subrange(1, 1) =~= Seq::<Seq<char>>::empty());
            while k < fields.len()
                invariant
                    1 <= k <= fields.len(),
                    id_views(fields@) == fs,
                    sum == saturate(field_sum(fs.subrange(1, k as int))),
                decreases fields.len() - k,
            {
                let ghost before = field_sum(fs.subrange(1, k as int));
                assert(fs[k as int] == fields@[k as int]@);
                assert(fs.subrange(1, k as int + 1).drop_last() =~= fs.subrange(1, k as int));
                assert(fs.subrange(1, k as int + 1).last() == fs[k as int]);
                let v = match parse_u64(fields[k].as_str()) {
                    Some(v) => v,
                    None => 0,
                };
                assert(field_sum(fs.subrange(1, k as int + 1)) == before + v);
                proof {
                    lemma_field_sum_nonneg(fs.subrange(1, k as int));
                }
                sum = sum.saturating_add(v);
                k = k + 1;
            }
            assert(fs.subrange(1, fields.len() as int) =~= after_first(fs));
            assert(is_first_line_with(ls, cpu_prefix(), i as int));
            return Some(sum);
        }
        i = i + 1;
    }
    None
}

/// The jiffies a process has spent in user and kernel mode, from its
/// `/proc/<pid>/stat` text: the fourteenth and fifteenth fields added,
/// saturating; `None` unless there are more than fifteen fields and both
/// read as `u64`.
pub fn process_jiffies(stat: &str) -> (r: Option<u64>)
    ensures
        ({
            let fs = fields_of(stat@);
            r == if fs.len() > 15 && decimal_u64(fs[13]) is Some && decimal_u64(fs[14]) is Some {
                Some(saturate(decimal_u64(fs[13])->0 + decimal_u64(fs[14])->0))
            } else {
                None
            }
        }),
{
    let fields = text_fields(stat);
    let ghost fs = fields_of(stat@);
    if fields.len() > 15 {
        assert(fs[13] == fields@[13]@);
        assert(fs[14] == fields@[14]@);
        let utime = parse_u64(fields[13].as_str());
        let stime = parse_u64(fields[14].as_str());
        match (utime, stime) {
            (Some(u), Some(s)) => Some(u.saturating_add(s)),
            _ => None,
        }
    } else {
        None
    }
}

pub open spec fn rss_prefix() -> Seq<char> {
    "VmRSS:"@
}

/// The kilobytes a `VmRSS:` line gives: its second field, if it reads as `u64`.
pub open spec fn rss_kb(line: Seq<char>) -> Option<u64> {
    let fs = fields_of(line);
    if starts_with(line, rss_prefix()) && fs.len() >= 2 {
        decimal_u64(fs[1])
    } else {
        None
    }
}

/// The resident set size, in bytes, that a `/proc/<pid>/status` text gives:
/// the kilobytes of the first `VmRSS:` line that holds a number, times
/// 1024; `None` when no line does, or when the product does not fit.
pub fn rss_bytes(status: &str) -> (r: Option<u64>)
    ensures
        ({
            let ls = lines_of(status@);
            match r {
                Some(v) => exists|i: int|
                    0 <= i < ls.len() && (#[trigger] rss_kb(ls[i])) is Some && (forall|j: int|
                        0 <= j < i ==> (#[trigger] rss_kb(ls[j])) is None) && v == rss_kb(ls[i])->0 * 1024,
                None => forall|i: int|
                    0 <= i < ls.len() && (#[trigger] rss_kb(ls[i])) is Some && (forall|j: int|
                        0 <= j < i ==> (#[trigger] rss_kb(ls[j])) is None) ==> rss_kb(ls[i])->0 * 1024
                        > u64::MAX,
            }
        }),
{
    proof {
        reveal_strlit("VmRSS:");
    }
    let lines = text_lines(status);
    let ghost ls = lines_of(status@);
    let mut i: usize = 0;
    while i < lines.len()
        invariant
            i <= lines.len(),
            ls == lines_of(status@),
            id_views(lines@) == ls,
            forall|j: int| 0 <= j < i ==> (#[trigger] rss_kb(ls[j])) is None,
        decreases lines.len() - i,
    {
        assert(ls[i as int] == lines@[i as int]@);
        let line = lines[i].as_str();
        if has_prefix(line, "VmRSS:") {
            let fields = text_fields(line);
            if fields.len() >= 2 {
                assert(fields_of(ls[i as int])[1] == fields@[1]@);
                if let Some(kb) = parse_u64(fields[1].as_str()) {
                    return kb.checked_mul(1024);
                }
            }
        }
        assert(rss_kb(ls[i as int]) is None);
        i = i + 1;
    }
    None
}

} // verus!
