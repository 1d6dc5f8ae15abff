//! The snapshot parser: turns a line-oriented counter dump into a
//! [`NetStats`] snapshot.
//!
//! The first two lines are a header and are skipped unconditionally. Every
//! later line must hold a colon; the text before the first colon, trimmed,
//! names the interface, and the text after it must split into at least nine
//! whitespace-separated fields, of which field 0 is the received byte count
//! and field 8 the transmitted byte count.

use vstd::prelude::*;
use vstd::string::StrSliceExecFns;

use crate::digits::spec_parse_u64;
use crate::digits::parse_u64_str;
use crate::snapshot::NetStats;
use crate::text::find_colon;
use crate::text::is_space;
use crate::text::lemma_find_colon_is;
use crate::text::lemma_skip_spaces_is;
use crate::text::lemma_token_end_is;
use crate::text::lemma_trim_end_is;
use crate::text::spec_is_space;
use crate::text::spec_trim;
use crate::text::split_fields;
use crate::text::views_of;

verus! {

/// Why a parse attempt failed. Any failing line aborts the whole parse.
#[derive(Clone, Copy, PartialEq, Eq, Structural, Debug)]
pub enum ParseError {
    /// A data line holds no colon.
    NoSeparator,
    /// A data line holds fewer than nine fields after the colon.
    MalformedCounters,
    /// Field 0 or field 8 of a data line is not an unsigned 64-bit numeral.
    InvalidNumber,
}

/// What one data line yields: the trimmed interface name and the two byte
/// counters, or the reason the line is rejected.
pub open spec fn spec_parse_line(line: Seq<char>) -> Result<(Seq<char>, u64, u64), ParseError> {
    let ci = find_colon(line, 0);
    if ci == line.len() {
        Err(ParseError::NoSeparator)
    } else {
        let name = spec_trim(line.subrange(0, ci));
        let fields = split_fields(line.subrange(ci + 1, line.len() as int), 0);
        if fields.len() < 9 {
            Err(ParseError::MalformedCounters)
        } else if spec_parse_u64(fields[0]) is None || spec_parse_u64(fields[8]) is None {
            Err(ParseError::InvalidNumber)
        } else {
            Ok((name, spec_parse_u64(fields[0]).unwrap(), spec_parse_u64(fields[8]).unwrap()))
        }
    }
}

/// Folds the data lines from index `i` on into the mapping `acc`, stopping
/// at the first rejected line.
pub open spec fn spec_parse_from(
    lines: Seq<Seq<char>>,
    i: int,
    acc: Map<Seq<char>, (u64, u64)>,
) -> Result<Map<Seq<char>, (u64, u64)>, ParseError>
    decreases lines.len() - i,
{
    if i >= lines.len() {
        Ok(acc)
    } else {
        match spec_parse_line(lines[i]) {
            Ok(entry) => spec_parse_from(lines, i + 1, acc.insert(entry.0, (entry.1, entry.2))),
            Err(e) => Err(e),
        }
    }
}

/// The snapshot a counter dump denotes: its data lines folded into a
/// mapping, the two header lines skipped.
pub open spec fn spec_parse(lines: Seq<Seq<char>>) -> Result<
    Map<Seq<char>, (u64, u64)>,
    ParseError,
> {
    spec_parse_from(lines, 2, Map::empty())
}

/// Parsing is a pure function of the lines and is therefore idempotent:
/// any two outcomes of parsing one input — in particular the views of two
/// snapshots that `parse_net_dev_stats`'s contract ties to that input —
/// are equal.
pub proof fn lemma_parse_idempotent(
    lines: Seq<Seq<char>>,
    r1: Result<Map<Seq<char>, (u64, u64)>, ParseError>,
    r2: Result<Map<Seq<char>, (u64, u64)>, ParseError>,
)
    requires
        r1 == spec_parse(lines),
        r2 == spec_parse(lines),
    ensures
        r1 == r2,
{
}

/// The fold over valid data lines succeeds, and what it yields is exact:
/// its keys are the accumulator's keys plus the lines' names; a name's
/// value comes from its last data line; accumulator entries no line
/// renames survive unchanged.
proof fn lemma_parse_from_ok(lines: Seq<Seq<char>>, i0: int, acc: Map<Seq<char>, (u64, u64)>)
    requires
        0 <= i0,
        forall|i: int| i0 <= i < lines.len() ==> (#[trigger] spec_parse_line(lines[i])) is Ok,
    ensures
        spec_parse_from(lines, i0, acc) is Ok,
        forall|k: Seq<char>|
            #[trigger] spec_parse_from(lines, i0, acc).unwrap().contains_key(k) <==> (
            acc.contains_key(k) || exists|i: int|
                i0 <= i < lines.len() && (#[trigger] spec_parse_line(lines[i])).unwrap().0 == k),
        forall|i: int|
            #![trigger spec_parse_line(lines[i])]
            (i0 <= i < lines.len() && (forall|j: int|
                i < j < lines.len() ==> (#[trigger] spec_parse_line(lines[j])).unwrap().0
                    != spec_parse_line(lines[i]).unwrap().0)) ==> {
                let e = spec_parse_line(lines[i]).unwrap();
                spec_parse_from(lines, i0, acc).unwrap()[e.0] == (e.1, e.2)
            },
        forall|k: Seq<char>|
            #![trigger acc.contains_key(k)]
            (acc.contains_key(k) && (forall|i: int|
                i0 <= i < lines.len() ==> (#[trigger] spec_parse_line(lines[i])).unwrap().0
                    != k)) ==> spec_parse_from(lines, i0, acc).unwrap()[k] == acc[k],
    decreases lines.len() - i0,
{
    if i0 < lines.len() {
        let e0 = spec_parse_line(lines[i0]).unwrap();
        let acc1 = acc.insert(e0.0, (e0.1, e0.2));
        lemma_parse_from_ok(lines, i0 + 1, acc1);
        let m = spec_parse_from(lines, i0, acc).unwrap();
        assert forall|k: Seq<char>| #[trigger]
            m.contains_key(k) implies (acc.contains_key(k) || exists|i: int|
            i0 <= i < lines.len() && (#[trigger] spec_parse_line(lines[i])).unwrap().0 == k) by {
            if !acc.contains_key(k) {
                if k == e0.0 {
                    assert(spec_parse_line(lines[i0]).unwrap().0 == k);
                } else {
                    let i = choose|i: int|
                        i0 + 1 <= i < lines.len() && (#[trigger] spec_parse_line(
                            lines[i],
                        )).unwrap().0 == k;
                    assert(spec_parse_line(lines[i]).unwrap().0 == k);
                }
            }
        }
        assert forall|k: Seq<char>| (acc.contains_key(k) || exists|i: int|
            i0 <= i < lines.len() && (#[trigger] spec_parse_line(lines[i])).unwrap().0
                == k) implies #[trigger] m.contains_key(k) by {
            if acc.contains_key(k) || k == e0.0 {
                assert(acc1.contains_key(k));
            } else {
                let i = choose|i: int|
                    i0 <= i < lines.len() && (#[trigger] spec_parse_line(lines[i])).unwrap().0
                        == k;
                assert(i0 + 1 <= i < lines.len() && spec_parse_line(lines[i]).unwrap().0 == k);
            }
        }
        assert forall|i: int|
            (i0 <= i < lines.len() && (forall|j: int|
                i < j < lines.len() ==> (#[trigger] spec_parse_line(lines[j])).unwrap().0
                    != spec_parse_line(lines[i]).unwrap().0)) implies {
            let e = #[trigger] spec_parse_line(lines[i]).unwrap();
            m[e.0] == (e.1, e.2)
        } by {
            let e = spec_parse_line(lines[i]).unwrap();
            if i == i0 {
                assert(acc1.contains_key(e.0) && acc1[e.0] == (e.1, e.2));
                assert(forall|j: int|
                    i0 + 1 <= j < lines.len() ==> (#[trigger] spec_parse_line(
                        lines[j],
                    )).unwrap().0 != e.0);
            }
        }
        assert forall|k: Seq<char>|
            (acc.contains_key(k) && (forall|i: int|
                i0 <= i < lines.len() ==> (#[trigger] spec_parse_line(lines[i])).unwrap().0
                    != k)) implies #[trigger] m[k] == acc[k] by {
            assert(spec_parse_line(lines[i0]).unwrap().0 != k);
            assert(acc1.contains_key(k) && acc1[k] == acc[k]);
        }
    }
}

/// For a well-formed dump — the two header lines and only valid data lines
/// after them — parsing succeeds, the snapshot's keys are exactly the data
/// lines' trimmed interface names, and each name holds the field-0 and
/// field-8 counters of its last data line.
pub proof fn lemma_parse_ok_contents(lines: Seq<Seq<char>>)
    requires
        forall|i: int| 2 <= i < lines.len() ==> (#[trigger] spec_parse_line(lines[i])) is Ok,
    ensures
        spec_parse(lines) is Ok,
        forall|k: Seq<char>|
            #[trigger] spec_parse(lines).unwrap().contains_key(k) <==> exists|i: int|
                2 <= i < lines.len() && (#[trigger] spec_parse_line(lines[i])).unwrap().0 == k,
        forall|i: int|
            #![trigger spec_parse_line(lines[i])]
            (2 <= i < lines.len() && (forall|j: int|
                i < j < lines.len() ==> (#[trigger] spec_parse_line(lines[j])).unwrap().0
                    != spec_parse_line(lines[i]).unwrap().0)) ==> {
                let e = spec_parse_line(lines[i]).unwrap();
                spec_parse(lines).unwrap()[e.0] == (e.1, e.2)
            },
{
    lemma_parse_from_ok(lines, 2, Map::empty());
}

/// The start and end of each whitespace-separated token of `s`, in order.
fn token_ranges(s: &str) -> (v: Vec<(usize, usize)>)
    ensures
        v@.map_values(|r: (usize, usize)| s@.subrange(r.0 as int, r.1 as int)) == split_fields(
            s@,
            0,
        ),
        forall|j: int| 0 <= j < v@.len() ==> 0 <= #[trigger] v@[j].0 < v@[j].1 <= s@.len(),
{
    let n = s.unicode_len();
    let mut v: Vec<(usize, usize)> = Vec::new();
    let mut p: usize = 0;
    proof {
        assert(v@.map_values(|r: (usize, usize)| s@.subrange(r.0 as int, r.1 as int)) + split_fields(
            s@,
            0,
        ) =~= split_fields(s@, 0));
    }
    while p < n
        invariant
            0 <= p <= n == s@.len(),
            split_fields(s@, 0) == v@.map_values(
                |r: (usize, usize)| s@.subrange(r.0 as int, r.1 as int),
            ) + split_fields(s@, p as int),
            forall|j: int| 0 <= j < v@.len() ==> 0 <= #[trigger] v@[j].0 < v@[j].1 <= s@.len(),
        decreases n - p,
    {
        let c = s.get_char(p);
        if is_space(c) {
            p = p + 1;
        } else {
            let mut q: usize = p + 1;
            while q < n && !is_space(s.get_char(q))
                invariant
                    0 <= p < q <= n == s@.len(),
                    forall|k: int| p <= k < q ==> !spec_is_space(s@[k]),
                decreases n - q,
            {
                q = q + 1;
            }
            proof {
                lemma_token_end_is(s@, p as int, q as int);
            }
            let ghost old_v = v@;
            v.push((p, q));
            proof {
                let f = |r: (usize, usize)| s@.subrange(r.0 as int, r.1 as int);
                assert(v@.map_values(f) =~= old_v.map_values(f) + seq![
                    s@.subrange(p as int, q as int),
                ]);
                assert(old_v.map_values(f) + (seq![s@.subrange(p as int, q as int)] + split_fields(
                    s@,
                    q as int,
                )) =~= v@.map_values(f) + split_fields(s@, q as int));
            }
            p = q;
        }
    }
    proof {
        assert(v@.map_values(|r: (usize, usize)| s@.subrange(r.0 as int, r.1 as int)) + split_fields(
            s@,
            p as int,
        ) =~= v@.map_values(|r: (usize, usize)| s@.subrange(r.0 as int, r.1 as int)));
    }
    v
}

/// Parses one data line as `spec_parse_line` describes.
fn parse_line(line: &String) -> (r: Result<(String, u64, u64), ParseError>)
    ensures
        (match (r, spec_parse_line(line@)) {
            (Ok(v), Ok(sv)) => v.0@ == sv.0 && v.1 == sv.1 && v.2 == sv.2,
            (Err(e), Err(se)) => e == se,
            _ => false,
        }),
{
    let s = line.as_str();
    let n = s.unicode_len();
    let mut ci: usize = 0;
    while ci < n && s.get_char(ci) != ':'
        invariant
            0 <= ci <= n == s@.len(),
            forall|k: int| 0 <= k < ci ==> s@[k] != ':',
        decreases n - ci,
    {
        ci = ci + 1;
    }
    proof {
        lemma_find_colon_is(s@, 0, ci as int);
    }
    if ci == n {
        return Err(ParseError::NoSeparator);
    }
    let ghost head = s@.subrange(0, ci as int);
    let mut a: usize = 0;
    while a < ci && is_space(s.get_char(a))
        invariant
            0 <= a <= ci <= s@.len(),
            forall|k: int| 0 <= k < a ==> spec_is_space(s@[k]),
        decreases ci - a,
    {
        a = a + 1;
    }
    proof {
        assert(forall|k: int| 0 <= k < ci ==> head[k] == s@[k]);
        lemma_skip_spaces_is(head, 0, a as int);
    }
    let name: String = if a == ci {
        proof {
            assert(spec_trim(head) =~= Seq::<char>::empty());
        }
        String::new()
    } else {
        let mut b: usize = ci;
        while b > a && is_space(s.get_char(b - 1))
            invariant
                0 <= a <= b <= ci <= s@.len(),
                a < ci,
                !spec_is_space(s@[a as int]),
                forall|k: int| b <= k < ci ==> spec_is_space(s@[k]),
            decreases b,
        {
            b = b - 1;
        }
        proof {
            assert(b > a);
            assert(forall|k: int| 0 <= k < ci ==> head[k] == s@[k]);
            lemma_trim_end_is(head, b as int);
        }
        let nm = s.substring_char(a, b);
        let named = nm.to_owned();
        proof {
            assert(named@ =~= spec_trim(head));
        }
        named
    };
    let rest = s.substring_char(ci + 1, n);
    let ranges = token_ranges(rest);
    let ghost fields = split_fields(rest@, 0);
    if ranges.len() < 9 {
        return Err(ParseError::MalformedCounters);
    }
    let (a0, b0) = ranges[0];
    let rx = parse_u64_str(rest, a0, b0);
    let (a8, b8) = ranges[8];
    let tx = parse_u64_str(rest, a8, b8);
    proof {
        let f = |r: (usize, usize)| rest@.subrange(r.0 as int, r.1 as int);
        assert(fields[0] == f(ranges@[0]));
        assert(fields[8] == f(ranges@[8]));
    }
    match (rx, tx) {
        (Some(rxv), Some(txv)) => Ok((name, rxv, txv)),
        _ => Err(ParseError::InvalidNumber),
    }
}

/// Parses a whole counter dump, given as its lines: the two header lines
/// are skipped, every later line must parse, and the snapshot holds exactly
/// the parsed interfaces with their field-0 and field-8 counters, later
/// duplicates overriding earlier ones. The first rejected line aborts the
/// parse with its reason; no partial snapshot escapes.
pub fn parse_net_dev_stats(lines: &Vec<String>) -> (r: Result<NetStats, ParseError>)
    ensures
        (match (r, spec_parse(views_of(lines@))) {
            (Ok(st), Ok(m)) => st@ == m && st.wf(),
            (Err(e), Err(se)) => e == se,
            _ => false,
        }),
{
    let ghost all = views_of(lines@);
    let mut stats = NetStats::new();
    let n = lines.len();
    if n <= 2 {
        return Ok(stats);
    }
    let mut i: usize = 2;
    while i < n
        invariant
            2 <= i <= n == lines@.len(),
            all == views_of(lines@),
            stats.wf(),
            spec_parse(all) == spec_parse_from(all, i as int, stats@),
        decreases n - i,
    {
        proof {
            assert(all[i as int] == lines@[i as int]@);
        }
        match parse_line(&lines[i]) {
            Ok((name, rx, tx)) => {
                stats.insert(name, rx, tx);
            },
            Err(e) => {
                return Err(e);
            },
        }
        i = i + 1;
    }
    Ok(stats)
}

} // verus!
