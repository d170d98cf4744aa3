//! The textual form of the input box: `name:min:max` entries separated by
//! commas, as in `x:0:100,y:-5:5`.
use vstd::prelude::*;
use crate::equivalence::{bounds_ordered, check_bounds, names_unique};
use crate::types::{CheckerError, InputBound};

verus! {

/// The pieces of `s` between occurrences of `sep`; there is always at
/// least one piece, and two adjacent separators give an empty one.
pub open spec fn split(s: Seq<char>, sep: char) -> Seq<Seq<char>>
    decreases s.len(),
{
    if s.len() == 0 {
        seq![seq![]]
    } else {
        let p = split(s.drop_last(), sep);
        if s.last() == sep {
            p.push(seq![])
        } else {
            p.update(p.len() - 1, p.last().push(s.last()))
        }
    }
}

pub open spec fn is_digit(c: char) -> bool {
    48 <= (c as u32) <= 57
}

/// The value of a string of decimal digits.
pub open spec fn decimal(s: Seq<char>) -> int
    decreases s.len(),
{
    if s.len() == 0 {
        0
    } else {
        10 * decimal(s.drop_last()) + ((s.last() as u32) - 48)
    }
}

/// The integer that `s` writes: an optional `+` or `-`, then one or more
/// decimal digits.
pub open spec fn signed_decimal(s: Seq<char>) -> Option<int> {
    let signed = s.len() > 0 && (s[0] == '-' || s[0] == '+');
    let digits = if signed { s.drop_first() } else { s };
    if digits.len() == 0 || !(forall|k: int| 0 <= k < digits.len() ==> is_digit(#[trigger] digits[k])) {
        None
    } else if s[0] == '-' {
        Some(-decimal(digits))
    } else {
        Some(decimal(digits))
    }
}

/// The `i64` that `s` writes, if it writes one that fits.
pub open spec fn i64_of(s: Seq<char>) -> Option<i64> {
    match signed_decimal(s) {
        Some(v) => if i64::MIN <= v <= i64::MAX { Some(v as i64) } else { None },
        None => None,
    }
}

/// Relies on `str::parse::<i64>` (`i64::from_str`): an optional sign and
/// decimal digits give their value, an empty text, any other character or a
/// value out of range give an error.
#[verifier::external_body]
fn parse_i64(s: &str) -> (r: Option<i64>)
    ensures
        r == i64_of(s@),
{
    s.parse::<i64>().ok()
}

/// Splits `s` at each `sep`.
pub fn split_at_char(s: &str, sep: char) -> (r: Vec<String>)
    ensures
        r@.map_values(|p: String| p@) == split(s@, sep),
{
    let n = s.unicode_len();
    let mut parts: Vec<String> = Vec::new();
    let mut start: usize = 0;
    let mut i: usize = 0;
    assert(s@.subrange(0, 0) =~= seq![]);
    assert(parts@.map_values(|p: String| p@).push(s@.subrange(0, 0)) =~= split(s@.subrange(0, 0), sep));
    while i < n
        invariant
            n == s@.len(),
            start <= i <= n,
            parts@.map_values(|p: String| p@).push(s@.subrange(start as int, i as int)) == split(s@.subrange(0, i as int), sep),
        decreases n - i,
    {
        let c = s.get_char(i);
        let ghost prev = parts@.map_values(|p: String| p@);
        assert(s@.subrange(0, i + 1).drop_last() =~= s@.subrange(0, i as int));
        assert(s@.subrange(0, i + 1).last() == c);
        if c == sep {
            let piece = String::from_str(s.substring_char(start, i));
            parts.push(piece);
            start = i + 1;
            assert(parts@.map_values(|p: String| p@) =~= prev.push(piece@));
        } else {
            assert(s@.subrange(start as int, i + 1) =~= s@.subrange(start as int, i as int).push(c));
            assert(prev.push(s@.subrange(start as int, i + 1)) =~= prev.push(s@.subrange(start as int, i as int)).update(
                prev.len() as int, s@.subrange(start as int, i as int).push(c)));
        }
        assert(s@.subrange((i + 1) as int, (i + 1) as int) =~= seq![]);
        i += 1;
    }
    assert(s@.subrange(0, n as int) =~= s@);
    let last = String::from_str(s.substring_char(start, n));
    parts.push(last);
    assert(parts@.map_values(|p: String| p@) =~= split(s@, sep));
    parts
}

/// One `name:min:max` entry is well formed.
pub open spec fn entry_ok(e: Seq<char>) -> bool {
    let f = split(e, ':');
    f.len() == 3 && i64_of(f[1]) is Some && i64_of(f[2]) is Some
}

/// `b` is what the entry `e` describes.
pub open spec fn entry_gives(e: Seq<char>, b: InputBound) -> bool {
    let f = split(e, ':');
    b.name@ == f[0] && i64_of(f[1]) == Some(b.min) && i64_of(f[2]) == Some(b.max)
}

pub open spec fn entries_ok(es: Seq<Seq<char>>) -> bool {
    forall|k: int| 0 <= k < es.len() ==> entry_ok(#[trigger] es[k])
}

/// Every well-formed entry has `min <= max`.
pub open spec fn entries_ordered(es: Seq<Seq<char>>) -> bool {
    forall|k: int| 0 <= k < es.len() ==> i64_of(split(#[trigger] es[k], ':')[1])->Some_0
        <= i64_of(split(es[k], ':')[2])->Some_0
}

/// No two entries name the same input.
pub open spec fn entries_unique(es: Seq<Seq<char>>) -> bool {
    forall|i: int, j: int| 0 <= i < j < es.len() ==> split(#[trigger] es[i], ':')[0] != split(#[trigger] es[j], ':')[0]
}

/// Reads the input box from its textual form. The first malformed entry
/// stops the reading: `BoundsFormat` when it does not have three fields,
/// `BoundsNumber` when a limit is not an integer. Well-formed entries must
/// then describe a valid box: `InvalidBounds` when some `min > max`,
/// `DuplicateInput` when two entries share a name.
pub fn parse_bounds(s: &str) -> (r: Result<Vec<InputBound>, CheckerError>)
    ensures
        match r {
            Ok(bs) => bs@.len() == split(s@, ',').len()
                && (forall|k: int| 0 <= k < bs@.len() ==> #[trigger] entry_gives(split(s@, ',')[k], bs@[k]))
                && bounds_ordered(bs@) && names_unique(bs@),
            Err(CheckerError::InvalidBounds) => entries_ok(split(s@, ',')) && !entries_ordered(split(s@, ',')),
            Err(CheckerError::DuplicateInput) => entries_ok(split(s@, ',')) && entries_ordered(split(s@, ','))
                && !entries_unique(split(s@, ',')),
            Err(CheckerError::BoundsFormat(e)) => exists|k: int| 0 <= k < split(s@, ',').len()
                && #[trigger] split(s@, ',')[k] == e@ && split(e@, ':').len() != 3,
            Err(CheckerError::BoundsNumber(e)) => exists|k: int| 0 <= k < split(s@, ',').len()
                && split(#[trigger] split(s@, ',')[k], ':').len() == 3 && !entry_ok(split(s@, ',')[k])
                && e@ == split(s@, ',')[k],
            Err(_) => false,
        },
        r is Ok <==> entries_ok(split(s@, ',')) && entries_ordered(split(s@, ',')) && entries_unique(split(s@, ',')),
        (r matches Err(CheckerError::BoundsFormat(_)) || r matches Err(CheckerError::BoundsNumber(_))) <==> !entries_ok(split(s@, ',')),
{
    let entries = split_at_char(s, ',');
    let ghost es = split(s@, ',');
    assert(entries@.len() == es.len());
    let mut out: Vec<InputBound> = Vec::new();
    let mut k: usize = 0;
    while k < entries.len()
        invariant
            entries@.map_values(|p: String| p@) == es,
            es == split(s@, ','),
            entries@.len() == es.len(),
            k <= entries.len(),
            out@.len() == k,
            forall|j: int| 0 <= j < k ==> entry_ok(#[trigger] es[j]) && entry_gives(es[j], out@[j]),
        decreases entries.len() - k,
    {
        let entry = &entries[k];
        assert(entry@ == es[k as int]);
        let fields = split_at_char(entry.as_str(), ':');
        let ghost fs = split(entry@, ':');
        assert(fields@.len() == fs.len());
        if fields.len() != 3 {
            return Err(CheckerError::BoundsFormat(entry.clone()));
        }
        assert(fields@[1]@ == fs[1] && fields@[2]@ == fs[2] && fields@[0]@ == fs[0]);
        let min = parse_i64(fields[1].as_str());
        let max = parse_i64(fields[2].as_str());
        match (min, max) {
            (Some(min), Some(max)) => {
                out.push(InputBound { name: fields[0].clone(), min, max });
            },
            _ => {
                return Err(CheckerError::BoundsNumber(entry.clone()));
            },
        }
        k += 1;
    }
    proof {
        assert(bounds_ordered(out@) <==> entries_ordered(es)) by {
            if !entries_ordered(es) {
                let k = choose|k: int| 0 <= k < es.len() && !(i64_of(split(#[trigger] es[k], ':')[1])->Some_0
                    <= i64_of(split(es[k], ':')[2])->Some_0);
                assert(entry_gives(es[k], out@[k]));
            }
            if !bounds_ordered(out@) {
                let k = choose|k: int| 0 <= k < out@.len() && !((#[trigger] out@[k]).min <= out@[k].max);
                assert(entry_gives(es[k], out@[k]));
            }
        }
        assert(names_unique(out@) <==> entries_unique(es)) by {
            if !entries_unique(es) {
                let (i, j) = choose|i: int, j: int| 0 <= i < j < es.len()
                    && split(#[trigger] es[i], ':')[0] == split(#[trigger] es[j], ':')[0];
                assert(entry_gives(es[i], out@[i]) && entry_gives(es[j], out@[j]));
            }
            if !names_unique(out@) {
                let (i, j) = choose|i: int, j: int| 0 <= i < j < out@.len()
                    && (#[trigger] out@[i]).name@ == (#[trigger] out@[j]).name@;
                assert(entry_gives(es[i], out@[i]) && entry_gives(es[j], out@[j]));
            }
        }
    }
    match check_bounds(&out) {
        Ok(_) => Ok(out),
        Err(e) => Err(e),
    }
}

} // verus!
