//! Rendering: the two-line column header and the one-line rate row.
//!
//! Every rate is shown in KB/s with two decimals, right-aligned in an
//! eight-character field; an interface's two fields are joined by two
//! spaces, and so are the field pairs of consecutively emitted interfaces.
//! A header name is centered in eighteen characters, the width one
//! interface's pair of rate fields occupies.

use vstd::prelude::*;
use vstd::string::StrSliceExecFns;
use vstd::string::StringExecFns;

use crate::digits::digit_char;
use crate::digits::lemma_dec_len;
use crate::digits::digit_str;
use crate::digits::spec_u64_dec;
use crate::digits::u64_to_dec;
use crate::snapshot::NetStats;
use crate::snapshot::filter_zero_counters;
use crate::snapshot::spec_filter;
use crate::text::views_of;

verus! {

/// `n` spaces.
pub open spec fn spec_spaces(n: int) -> Seq<char>
    decreases n,
{
    if n <= 0 {
        Seq::empty()
    } else {
        spec_spaces(n - 1).push(' ')
    }
}

pub proof fn lemma_spaces_len(n: int)
    ensures
        spec_spaces(n).len() == (if n <= 0 {
            0
        } else {
            n
        }),
    decreases n,
{
    if n > 0 {
        lemma_spaces_len(n - 1);
    }
}

/// `s` right-aligned in a field of `w` characters; wider values overflow
/// the field unchanged.
pub open spec fn spec_pad_left(s: Seq<char>, w: int) -> Seq<char> {
    if s.len() >= w {
        s
    } else {
        spec_spaces(w - s.len()) + s
    }
}

/// `s` centered in a field of `w` characters, the odd space going right;
/// wider values overflow the field unchanged.
pub open spec fn spec_center(s: Seq<char>, w: int) -> Seq<char> {
    if s.len() >= w {
        s
    } else {
        spec_spaces((w - s.len()) / 2) + s + spec_spaces((w - s.len()) - (w - s.len()) / 2)
    }
}

/// The delta of two cumulative counters, saturating at zero: a counter that
/// moved backwards (a reset interface) reports no data, not an error.
pub open spec fn spec_sat_sub(cur: u64, prev: u64) -> u64 {
    if cur >= prev {
        (cur - prev) as u64
    } else {
        0
    }
}

/// A byte delta as hundredths of a KB: the two-decimal rendering of
/// `delta / 1024`, rounded to nearest with ties to even, as fixed-point
/// decimal formatting rounds.
pub open spec fn spec_rate_hundredths(delta: u64) -> int {
    let q = (delta * 25) / 256;
    let r = (delta * 25) % 256;
    if r > 128 {
        q + 1
    } else if r < 128 {
        q
    } else if q % 2 == 0 {
        q
    } else {
        q + 1
    }
}

/// A rate of `h` hundredths of a KB/s written with two decimals.
pub open spec fn spec_rate_str(h: int) -> Seq<char> {
    spec_u64_dec(h / 100) + seq!['.', digit_char((h % 100) / 10), digit_char((h % 100) % 10)]
}

/// One rate column: the two-decimal rate right-aligned in eight characters.
pub open spec fn spec_rate_field(h: int) -> Seq<char> {
    spec_pad_left(spec_rate_str(h), 8)
}

/// The pair of rate columns one interface contributes to a row.
pub open spec fn spec_stats_cell(prev: (u64, u64), cur: (u64, u64)) -> Seq<char> {
    spec_rate_field(spec_rate_hundredths(spec_sat_sub(cur.0, prev.0))) + seq![' ', ' ']
        + spec_rate_field(spec_rate_hundredths(spec_sat_sub(cur.1, prev.1)))
}

/// The interfaces a render call actually shows: the requested list, run
/// through the zero-activity filter when hiding is on.
pub open spec fn spec_effective(
    m: Map<Seq<char>, (u64, u64)>,
    names: Seq<Seq<char>>,
    hide: bool,
) -> Seq<Seq<char>> {
    if hide {
        spec_filter(m, names)
    } else {
        names
    }
}

/// The rate row for `names[i..]`: interfaces present in both snapshots
/// contribute their cell; interfaces missing from either snapshot
/// contribute nothing at all, not even a separator. The two-space
/// separator stands only between consecutive emitted cells — `emitted`
/// records whether an earlier slot already emitted one — so the column
/// layout is set by the interfaces that actually produced data. The row
/// always ends with one newline.
pub open spec fn spec_stats_row(
    pm: Map<Seq<char>, (u64, u64)>,
    cm: Map<Seq<char>, (u64, u64)>,
    names: Seq<Seq<char>>,
    i: int,
    emitted: bool,
) -> Seq<char>
    decreases names.len() - i,
{
    if i < 0 || i >= names.len() {
        seq!['\n']
    } else if pm.contains_key(names[i]) && cm.contains_key(names[i]) {
        (if emitted {
            seq![' ', ' ']
        } else {
            Seq::empty()
        }) + spec_stats_cell(pm[names[i]], cm[names[i]]) + spec_stats_row(
            pm,
            cm,
            names,
            i + 1,
            true,
        )
    } else {
        spec_stats_row(pm, cm, names, i + 1, emitted)
    }
}

/// What `print_stats` writes.
pub open spec fn spec_print_stats(
    pm: Map<Seq<char>, (u64, u64)>,
    cm: Map<Seq<char>, (u64, u64)>,
    names: Seq<Seq<char>>,
    hide: bool,
) -> Seq<char> {
    spec_stats_row(pm, cm, spec_effective(cm, names, hide), 0, false)
}

/// The header's name line for `names[i..]`: each name centered in eighteen
/// characters, names joined by two spaces, one newline at the end.
pub open spec fn spec_header_names(names: Seq<Seq<char>>, i: int) -> Seq<char>
    decreases names.len() - i,
{
    if i < 0 || i >= names.len() {
        seq!['\n']
    } else {
        spec_center(names[i], 18) + (if i + 1 < names.len() {
            seq![' ', ' ']
        } else {
            Seq::empty()
        }) + spec_header_names(names, i + 1)
    }
}

/// The header's label line for `n` interfaces, from slot `i` on: one
/// eighteen-character block of the two right-aligned column labels per
/// interface, blocks joined by two spaces, one newline at the end.
pub open spec fn spec_header_labels(n: int, i: int) -> Seq<char>
    decreases n - i,
{
    if i >= n {
        seq!['\n']
    } else {
        " KB/s in  KB/s out"@ + (if i + 1 < n {
            seq![' ', ' ']
        } else {
            Seq::empty()
        }) + spec_header_labels(n, i + 1)
    }
}

/// What `print_headers` writes: nothing at all for an empty effective list,
/// else the name line and the label line.
pub open spec fn spec_print_headers(
    m: Map<Seq<char>, (u64, u64)>,
    names: Seq<Seq<char>>,
    hide: bool,
) -> Seq<char> {
    let eff = spec_effective(m, names, hide);
    if eff.len() == 0 {
        Seq::empty()
    } else {
        spec_header_names(eff, 0) + spec_header_labels(eff.len() as int, 0)
    }
}

/// Rendering a snapshot against itself shows no throughput: whatever the
/// counters, the interface's cell is the zero rate pair, `0.00`
/// right-aligned in each eight-wide column.
pub proof fn lemma_identical_snapshots_zero_cell(v: (u64, u64))
    ensures
        spec_stats_cell(v, v) == spec_pad_left("0.00"@, 8) + seq![' ', ' '] + spec_pad_left(
            "0.00"@,
            8,
        ),
{
    reveal_strlit("0.00");
    assert(spec_sat_sub(v.0, v.0) == 0);
    assert(spec_sat_sub(v.1, v.1) == 0);
    assert(spec_rate_hundredths(0) == 0);
    assert(spec_u64_dec(0) =~= seq![digit_char(0)]);
    assert(spec_rate_str(0) =~= "0.00"@);
}

/// A row rendered from a snapshot against itself shows zero for every rate
/// column, whatever the counters: two identical snapshot pairs that hold
/// the same interfaces render the same all-zero row.
pub proof fn lemma_identical_snapshots_zero_row(
    m1: Map<Seq<char>, (u64, u64)>,
    m2: Map<Seq<char>, (u64, u64)>,
    names: Seq<Seq<char>>,
    i: int,
    emitted: bool,
)
    requires
        forall|n: Seq<char>| m1.contains_key(n) <==> m2.contains_key(n),
    ensures
        spec_stats_row(m1, m1, names, i, emitted) == spec_stats_row(m2, m2, names, i, emitted),
    decreases names.len() - i,
{
    if 0 <= i < names.len() {
        if m1.contains_key(names[i]) {
            lemma_identical_snapshots_zero_row(m1, m2, names, i + 1, true);
            lemma_identical_snapshots_zero_cell(m1[names[i]]);
            lemma_identical_snapshots_zero_cell(m2[names[i]]);
        } else {
            lemma_identical_snapshots_zero_row(m1, m2, names, i + 1, emitted);
        }
    }
}

/// A rate below the field's capacity fills its column exactly.
pub proof fn lemma_rate_field_len(h: int)
    requires
        0 <= h < 10000000,
    ensures
        spec_rate_field(h).len() == 8,
{
    lemma_dec_len(h / 100);
    lemma_spaces_len(8 - spec_rate_str(h).len());
}

/// A name no wider than the field is centered into exactly `w` characters.
pub proof fn lemma_center_len(s: Seq<char>, w: int)
    requires
        s.len() <= w,
    ensures
        spec_center(s, w).len() == w,
{
    lemma_spaces_len((w - s.len()) / 2);
    lemma_spaces_len((w - s.len()) - (w - s.len()) / 2);
}

/// Header and data columns align: over one effective interface list whose
/// interfaces are present in both snapshots, with names at most the
/// eighteen-character field and rates below the eight-character field's
/// capacity, the name line, the label line and the data row all have the
/// same length, block for block, so the field boundaries coincide under a
/// fixed-width rendering.
pub proof fn lemma_header_row_alignment(
    pm: Map<Seq<char>, (u64, u64)>,
    cm: Map<Seq<char>, (u64, u64)>,
    names: Seq<Seq<char>>,
    i: int,
)
    requires
        0 <= i <= names.len(),
        forall|j: int|
            i <= j < names.len() ==> (pm.contains_key(#[trigger] names[j]) && cm.contains_key(
                names[j],
            ) && names[j].len() <= 18 && spec_rate_hundredths(
                spec_sat_sub(cm[names[j]].0, pm[names[j]].0),
            ) < 10000000 && spec_rate_hundredths(spec_sat_sub(cm[names[j]].1, pm[names[j]].1))
                < 10000000),
    ensures
        spec_stats_row(pm, cm, names, i, false).len() == spec_header_labels(
            names.len() as int,
            i,
        ).len(),
        i < names.len() ==> spec_stats_row(pm, cm, names, i, true).len() == 2 + spec_stats_row(
            pm,
            cm,
            names,
            i,
            false,
        ).len(),
        spec_header_names(names, i).len() == spec_header_labels(names.len() as int, i).len(),
    decreases names.len() - i,
{
    reveal_strlit(" KB/s in  KB/s out");
    assert(" KB/s in  KB/s out"@.len() == 18);
    if i < names.len() {
        reveal_with_fuel(spec_stats_row, 2);
        reveal_with_fuel(spec_header_labels, 2);
        lemma_header_row_alignment(pm, cm, names, i + 1);
        lemma_center_len(names[i], 18);
        let hr = spec_rate_hundredths(spec_sat_sub(cm[names[i]].0, pm[names[i]].0));
        let ht = spec_rate_hundredths(spec_sat_sub(cm[names[i]].1, pm[names[i]].1));
        assert(hr >= 0 && ht >= 0);
        lemma_rate_field_len(hr);
        lemma_rate_field_len(ht);
    }
}

/// Appends `k` spaces to `out`.
fn push_spaces(out: &mut String, k: usize)
    ensures
        final(out)@ == old(out)@ + spec_spaces(k as int),
{
    let mut i: usize = 0;
    proof {
        assert(out@ + spec_spaces(0) =~= out@);
    }
    while i < k
        invariant
            0 <= i <= k,
            out@ == old(out)@ + spec_spaces(i as int),
        decreases k - i,
    {
        proof {
            reveal_strlit(" ");
            assert(" "@ =~= seq![' ']);
            assert((old(out)@ + spec_spaces(i as int)) + seq![' '] =~= old(out)@ + spec_spaces(
                i as int + 1,
            ));
        }
        out.append(" ");
        i = i + 1;
    }
}

/// The exact number the counters moved by, scaled to hundredths of a KB.
fn rate_hundredths(cur: u64, prev: u64) -> (h: u64)
    ensures
        h as int == spec_rate_hundredths(spec_sat_sub(cur, prev)),
{
    let delta: u64 = if cur >= prev {
        cur - prev
    } else {
        0
    };
    let q: u64 = delta / 256;
    let rem: u64 = delta % 256;
    let a: u64 = (rem * 25) / 256;
    let b: u64 = (rem * 25) % 256;
    proof {
        assert(delta as int * 25 == (q as int * 25 + a as int) * 256 + b as int)
            by (nonlinear_arith)
            requires
                delta as int == q as int * 256 + rem as int,
                rem as int * 25 == a as int * 256 + b as int,
        {
        }
        vstd::arithmetic::div_mod::lemma_fundamental_div_mod_converse(
            delta as int * 25,
            256,
            q as int * 25 + a as int,
            b as int,
        );
    }
    let h0: u64 = q * 25 + a;
    if b > 128 {
        h0 + 1
    } else if b < 128 {
        h0
    } else if h0 % 2 == 0 {
        h0
    } else {
        h0 + 1
    }
}

/// Writes the rate of `h` hundredths of a KB/s as one eight-wide column.
fn rate_field(h: u64) -> (s: String)
    ensures
        s@ == spec_rate_field(h as int),
{
    let mut num = u64_to_dec(h / 100);
    let frac = h % 100;
    proof {
        reveal_strlit(".");
        assert("."@ =~= seq!['.']);
    }
    num.append(".");
    num.append(digit_str(frac / 10));
    num.append(digit_str(frac % 10));
    proof {
        assert(num@ =~= spec_rate_str(h as int));
    }
    let len = num.as_str().unicode_len();
    if len >= 8 {
        num
    } else {
        let mut out = String::new();
        push_spaces(&mut out, 8 - len);
        out.append(num.as_str());
        proof {
            assert(out@ =~= spec_rate_field(h as int));
        }
        out
    }
}

/// Writes `name` centered in an eighteen-character field.
fn center_field(name: &String) -> (s: String)
    ensures
        s@ == spec_center(name@, 18),
{
    let len = name.as_str().unicode_len();
    if len >= 18 {
        name.clone()
    } else {
        let total = 18 - len;
        let left = total / 2;
        let right = total - left;
        let mut out = String::new();
        push_spaces(&mut out, left);
        out.append(name.as_str());
        push_spaces(&mut out, right);
        proof {
            assert(out@ =~= spec_center(name@, 18));
        }
        out
    }
}

/// A copy of the requested interface list.
fn clone_names(v: &Vec<String>) -> (r: Vec<String>)
    ensures
        r@ == v@,
{
    let mut r: Vec<String> = Vec::new();
    let n = v.len();
    let mut i: usize = 0;
    while i < n
        invariant
            0 <= i <= n == v@.len(),
            r@ == v@.take(i as int),
        decreases n - i,
    {
        r.push(v[i].clone());
        proof {
            assert(v@.take(i as int + 1) =~= v@.take(i as int).push(v@[i as int]));
        }
        i = i + 1;
    }
    proof {
        assert(v@.take(n as int) =~= v@);
    }
    r
}

/// Writes the two header lines for the effective interface list, or nothing
/// when that list is empty: line one centers each name, line two carries the
/// inbound and outbound column labels at the positions the data row uses.
pub fn print_headers(interfaces: &Vec<String>, hide_zero_counters: bool, stats: &NetStats) -> (out:
    String)
    requires
        stats.wf(),
    ensures
        out@ == spec_print_headers(stats@, views_of(interfaces@), hide_zero_counters),
{
    let eff: Vec<String> = if hide_zero_counters {
        filter_zero_counters(stats, interfaces)
    } else {
        clone_names(interfaces)
    };
    let ghost names = spec_effective(stats@, views_of(interfaces@), hide_zero_counters);
    proof {
        assert(views_of(eff@) == names);
    }
    let n = eff.len();
    if n == 0 {
        return String::new();
    }
    let mut out = String::new();
    let mut i: usize = 0;
    proof {
        assert(out@ + spec_header_names(names, 0) =~= spec_header_names(names, 0));
    }
    while i < n
        invariant
            0 <= i <= n == eff@.len(),
            names == views_of(eff@),
            spec_header_names(names, 0) == out@ + spec_header_names(names, i as int),
        decreases n - i,
    {
        let field = center_field(&eff[i]);
        out.append(field.as_str());
        proof {
            assert(names[i as int] == eff@[i as int]@);
        }
        if i + 1 < n {
            proof {
                reveal_strlit("  ");
                assert("  "@ =~= seq![' ', ' ']);
            }
            out.append("  ");
        }
        proof {
            assert(spec_header_names(names, 0) =~= out@ + spec_header_names(names, i as int + 1));
        }
        i = i + 1;
    }
    proof {
        reveal_strlit("\n");
        assert("\n"@ =~= seq!['\n']);
    }
    out.append("\n");
    proof {
        assert(out@ =~= spec_header_names(names, 0));
    }
    let ghost line1 = out@;
    let mut j: usize = 0;
    proof {
        assert(out@ + spec_header_labels(n as int, 0) =~= line1 + spec_header_labels(n as int, 0));
    }
    while j < n
        invariant
            0 <= j <= n,
            line1 + spec_header_labels(n as int, 0) == out@ + spec_header_labels(
                n as int,
                j as int,
            ),
        decreases n - j,
    {
        out.append(" KB/s in  KB/s out");
        if j + 1 < n {
            proof {
                reveal_strlit("  ");
                assert("  "@ =~= seq![' ', ' ']);
            }
            out.append("  ");
        }
        proof {
            assert(line1 + spec_header_labels(n as int, 0) =~= out@ + spec_header_labels(
                n as int,
                j as int + 1,
            ));
        }
        j = j + 1;
    }
    proof {
        reveal_strlit("\n");
        assert("\n"@ =~= seq!['\n']);
    }
    out.append("\n");
    proof {
        assert(out@ =~= spec_print_headers(stats@, views_of(interfaces@), hide_zero_counters));
    }
    out
}

/// Writes one rate row: for each interface of the effective list that both
/// snapshots hold, the saturating per-counter delta scaled to KB/s with two
/// decimals, in two right-aligned eight-wide columns; interfaces missing
/// from either snapshot contribute no columns and no separator. The row
/// ends with a newline.
pub fn print_stats(
    previous: &NetStats,
    current: &NetStats,
    interfaces: &Vec<String>,
    hide_zero_counters: bool,
) -> (out: String)
    requires
        previous.wf(),
        current.wf(),
    ensures
        out@ == spec_print_stats(previous@, current@, views_of(interfaces@), hide_zero_counters),
{
    let eff: Vec<String> = if hide_zero_counters {
        filter_zero_counters(current, interfaces)
    } else {
        clone_names(interfaces)
    };
    let ghost names = spec_effective(current@, views_of(interfaces@), hide_zero_counters);
    proof {
        assert(views_of(eff@) == names);
    }
    let n = eff.len();
    let mut out = String::new();
    let mut i: usize = 0;
    let mut emitted = false;
    proof {
        assert(out@ + spec_stats_row(previous@, current@, names, 0, false) =~= spec_stats_row(
            previous@,
            current@,
            names,
            0,
            false,
        ));
    }
    while i < n
        invariant
            0 <= i <= n == eff@.len(),
            names == views_of(eff@),
            previous.wf(),
            current.wf(),
            spec_stats_row(previous@, current@, names, 0, false) == out@ + spec_stats_row(
                previous@,
                current@,
                names,
                i as int,
                emitted,
            ),
        decreases n - i,
    {
        proof {
            assert(names[i as int] == eff@[i as int]@);
        }
        match (previous.get(&eff[i]), current.get(&eff[i])) {
            (Some((prx, ptx)), Some((crx, ctx))) => {
                proof {
                    reveal_strlit("  ");
                    assert("  "@ =~= seq![' ', ' ']);
                }
                if emitted {
                    out.append("  ");
                }
                let f_rx = rate_field(rate_hundredths(crx, prx));
                let f_tx = rate_field(rate_hundredths(ctx, ptx));
                out.append(f_rx.as_str());
                out.append("  ");
                out.append(f_tx.as_str());
                emitted = true;
                proof {
                    assert(spec_stats_row(previous@, current@, names, 0, false) =~= out@
                        + spec_stats_row(previous@, current@, names, i as int + 1, true));
                }
            },
            _ => {
                proof {
                    assert(spec_stats_row(previous@, current@, names, i as int, emitted)
                        == spec_stats_row(previous@, current@, names, i as int + 1, emitted));
                }
            },
        }
        i = i + 1;
    }
    proof {
        reveal_strlit("\n");
        assert("\n"@ =~= seq!['\n']);
    }
    out.append("\n");
    proof {
        assert(out@ =~= spec_print_stats(
            previous@,
            current@,
            views_of(interfaces@),
            hide_zero_counters,
        ));
    }
    out
}

} // verus!
