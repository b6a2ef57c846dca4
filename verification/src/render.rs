//! Template data for the statistics card and the pie-chart segment
//! geometry: decimal formatting, fixed-point arc arithmetic, and the
//! assembly of the structures the markup renderer consumes.

use vstd::prelude::*;
use vstd::arithmetic::div_mod::lemma_div_is_ordered;
use vstd::string::StringExecFns;
use crate::theme::Theme;

verus! {

/// One row of the statistics column.
pub struct StatRow {
    pub label: String,
    pub value: String,
    pub dy: i32,
}

/// One arc of the language pie chart with its legend entry.
pub struct LangSegment {
    pub name: String,
    pub color: String,
    pub percent_text: String,
    pub dasharray: String,
    pub dashoffset: String,
    pub legend_dy: i32,
}

/// Pi scaled by ten to the fifteenth, rounded to the nearest integer.
pub const PI_1E15: u64 = 3_141_592_653_589_793;

/// The decimal digit character for a value of zero through nine.
pub open spec fn digit_char(d: int) -> char {
    if d == 0 {
        '0'
    } else if d == 1 {
        '1'
    } else if d == 2 {
        '2'
    } else if d == 3 {
        '3'
    } else if d == 4 {
        '4'
    } else if d == 5 {
        '5'
    } else if d == 6 {
        '6'
    } else if d == 7 {
        '7'
    } else if d == 8 {
        '8'
    } else {
        '9'
    }
}

/// The decimal notation of a nonnegative integer, without padding.
pub open spec fn dec_str(n: int) -> Seq<char>
    decreases n,
{
    if n < 10 {
        seq![digit_char(n)]
    } else {
        dec_str(n / 10).push(digit_char(n % 10))
    }
}

/// The decimal notation of a fraction value below ten thousand, left-padded
/// with zeros to four digits.
pub open spec fn pad4_str(f: int) -> Seq<char> {
    if f < 10 {
        seq!['0', '0', '0'] + dec_str(f)
    } else if f < 100 {
        seq!['0', '0'] + dec_str(f)
    } else if f < 1000 {
        seq!['0'] + dec_str(f)
    } else {
        dec_str(f)
    }
}

/// Fixed-point notation with four decimal places of a value held in units
/// of one ten-thousandth.
pub open spec fn fixed4_str(v: int) -> Seq<char> {
    dec_str(v / 10000) + seq!['.'] + pad4_str(v % 10000)
}

/// Division rounded to the nearest integer, halves rounding up.
pub open spec fn div_round(a: int, b: int) -> int {
    (2 * a + b) / (2 * b)
}

/// The share of `part` in `total`, in units of one hundred-millionth,
/// rounded down.
pub open spec fn ratio_1e8(part: int, total: int) -> int {
    part * 100_000_000 / total
}

/// The arc length of a share `x` (in hundred-millionths) of a circle of the
/// given radius, in units of one ten-thousandth, rounded to nearest.
pub open spec fn arc4(radius: int, x: int) -> int {
    div_round(2 * PI_1E15 * radius * x, 10_000_000_000_000_000_000)
}

/// The circumference of a circle of the given radius, in units of one
/// ten-thousandth, rounded to nearest.
pub open spec fn circ4(radius: int) -> int {
    div_round(2 * PI_1E15 * radius, 100_000_000_000)
}

/// The percentage of a share, in tenths of a percent, rounded to nearest.
pub open spec fn percent1(x: int) -> int {
    div_round(1000 * x, 100_000_000)
}

/// The percentage label of a share: one decimal place and a percent sign.
pub open spec fn percent_str(size: int, total: int) -> Seq<char> {
    let p = percent1(ratio_1e8(size, total));
    dec_str(p / 10) + seq!['.'] + dec_str(p % 10) + seq!['%']
}

/// The stroke-dash pattern of one segment: its arc length, then a gap of a
/// full circumference, so each stroke draws a single arc.
pub open spec fn dasharray_str(radius: int, size: int, total: int) -> Seq<char> {
    fixed4_str(arc4(radius, ratio_1e8(size, total))) + seq![' '] + fixed4_str(circ4(radius))
}

/// The stroke-dash offset of one segment: minus the arc length of every
/// share drawn before it, advancing the arcs clockwise around the ring.
pub open spec fn dashoffset_str(radius: int, prefix: int, total: int) -> Seq<char> {
    seq!['-'] + fixed4_str(arc4(radius, ratio_1e8(prefix, total)))
}

fn digit_str(d: u64) -> (r: String)
    requires
        d < 10,
    ensures
        r@ == seq![digit_char(d as int)],
{
    let s: &str = if d == 0 {
        "0"
    } else if d == 1 {
        "1"
    } else if d == 2 {
        "2"
    } else if d == 3 {
        "3"
    } else if d == 4 {
        "4"
    } else if d == 5 {
        "5"
    } else if d == 6 {
        "6"
    } else if d == 7 {
        "7"
    } else if d == 8 {
        "8"
    } else {
        "9"
    };
    proof {
        reveal_strlit("0");
        reveal_strlit("1");
        reveal_strlit("2");
        reveal_strlit("3");
        reveal_strlit("4");
        reveal_strlit("5");
        reveal_strlit("6");
        reveal_strlit("7");
        reveal_strlit("8");
        reveal_strlit("9");
    }
    let r = s.to_owned();
    proof {
        assert(r@ =~= seq![digit_char(d as int)]);
    }
    r
}

/// The decimal notation of a value, exactly as `dec_str` states it.
pub fn u64_to_dec(n: u64) -> (r: String)
    ensures
        r@ == dec_str(n as int),
    decreases n,
{
    if n < 10 {
        digit_str(n)
    } else {
        let mut s = u64_to_dec(n / 10);
        let d = digit_str(n % 10);
        s.append(d.as_str());
        proof {
            assert(s@ =~= dec_str(n as int));
        }
        s
    }
}

/// Four-decimal fixed-point notation of a value held in ten-thousandths.
pub fn format_fixed4(v: u64) -> (r: String)
    ensures
        r@ == fixed4_str(v as int),
{
    let mut s = u64_to_dec(v / 10000);
    s.append(".");
    let frac = v % 10000;
    if frac < 10 {
        s.append("000");
    } else if frac < 100 {
        s.append("00");
    } else if frac < 1000 {
        s.append("0");
    }
    let d = u64_to_dec(frac);
    s.append(d.as_str());
    proof {
        reveal_strlit(".");
        reveal_strlit("000");
        reveal_strlit("00");
        reveal_strlit("0");
        assert(s@ =~= fixed4_str(v as int));
    }
    s
}

fn div_round_u128(a: u128, b: u128) -> (r: u128)
    requires
        1 <= b,
        2 * a + b <= u128::MAX,
        2 * b <= u128::MAX,
    ensures
        r == div_round(a as int, b as int),
{
    (2 * a + b) / (2 * b)
}

/// The share of `part` in `total` in hundred-millionths, rounded down;
/// never more than one hundred million when the part is within the total.
fn compute_ratio(part: u64, total: u64) -> (x: u64)
    requires
        1 <= total,
        part <= total,
    ensures
        x == ratio_1e8(part as int, total as int),
        x <= 100_000_000,
{
    let p: u128 = (part as u128) * 100_000_000;
    let q = p / (total as u128);
    proof {
        assert(part as int * 100_000_000 <= total as int * 100_000_000) by (nonlinear_arith)
            requires
                part as int <= total as int,
        ;
        lemma_div_is_ordered(
            part as int * 100_000_000,
            total as int * 100_000_000,
            total as int,
        );
        assert((total as int * 100_000_000) / (total as int) == 100_000_000)
            by (nonlinear_arith)
            requires
                1 <= total as int,
        ;
    }
    q as u64
}

/// The arc length in ten-thousandths for a share `x` in hundred-millionths.
fn compute_arc4(radius: u32, x: u64) -> (r: u64)
    requires
        radius <= 1_000_000,
        x <= 100_000_000,
    ensures
        r == arc4(radius as int, x as int),
{
    let a1: u128 = 6_283_185_307_179_586 * (radius as u128);
    proof {
        assert(a1 == 2 * (PI_1E15 as int) * (radius as int));
        assert((a1 as int) * (x as int) <= 700_000_000_000_000_000_000_000_000_000int)
            by (nonlinear_arith)
            requires
                a1 as int <= 6_283_185_307_179_586_000_000int,
                x as int <= 100_000_000,
                0 <= a1 as int,
                0 <= x as int,
        ;
    }
    let a: u128 = a1 * (x as u128);
    let q = div_round_u128(a, 10_000_000_000_000_000_000);
    proof {
        lemma_div_is_ordered(
            2 * (a as int) + 10_000_000_000_000_000_000int,
            2 * 700_000_000_000_000_000_000_000_000_000int + 10_000_000_000_000_000_000int,
            2 * 10_000_000_000_000_000_000int,
        );
    }
    q as u64
}

/// The circumference in ten-thousandths for the given radius.
fn compute_circ4(radius: u32) -> (r: u64)
    requires
        radius <= 1_000_000,
    ensures
        r == circ4(radius as int),
{
    let a: u128 = 6_283_185_307_179_586 * (radius as u128);
    proof {
        assert(a == 2 * (PI_1E15 as int) * (radius as int));
    }
    let q = div_round_u128(a, 100_000_000_000);
    proof {
        lemma_div_is_ordered(
            2 * (a as int) + 100_000_000_000int,
            2 * 6_283_185_307_179_586_000_000int + 100_000_000_000int,
            2 * 100_000_000_000int,
        );
    }
    q as u64
}

/// The percentage in tenths of a percent for a share `x`.
fn compute_percent1(x: u64) -> (r: u64)
    requires
        x <= 100_000_000,
    ensures
        r == percent1(x as int),
{
    let a: u128 = 1000 * (x as u128);
    let q = div_round_u128(a, 100_000_000);
    proof {
        lemma_div_is_ordered(
            2 * (a as int) + 100_000_000int,
            2 * 100_000_000_000int + 100_000_000int,
            2 * 100_000_000int,
        );
    }
    q as u64
}

/// The percentage label for a (size, total) share.
fn percent_text(size: u64, total: u64) -> (r: String)
    requires
        1 <= total,
        size <= total,
    ensures
        r@ == percent_str(size as int, total as int),
{
    let x = compute_ratio(size, total);
    let p = compute_percent1(x);
    let mut s = u64_to_dec(p / 10);
    s.append(".");
    let d = u64_to_dec(p % 10);
    s.append(d.as_str());
    s.append("%");
    proof {
        reveal_strlit(".");
        reveal_strlit("%");
        assert(s@ =~= percent_str(size as int, total as int));
    }
    s
}

/// The dash pattern for a (size, total) share at the given radius.
fn dasharray_text(radius: u32, size: u64, total: u64) -> (r: String)
    requires
        radius <= 1_000_000,
        1 <= total,
        size <= total,
    ensures
        r@ == dasharray_str(radius as int, size as int, total as int),
{
    let x = compute_ratio(size, total);
    let mut s = format_fixed4(compute_arc4(radius, x));
    s.append(" ");
    let c = format_fixed4(compute_circ4(radius));
    s.append(c.as_str());
    proof {
        reveal_strlit(" ");
        assert(s@ =~= dasharray_str(radius as int, size as int, total as int));
    }
    s
}

/// The dash offset for the given prefix share at the given radius.
fn dashoffset_text(radius: u32, prefix: u64, total: u64) -> (r: String)
    requires
        radius <= 1_000_000,
        1 <= total,
        prefix <= total,
    ensures
        r@ == dashoffset_str(radius as int, prefix as int, total as int),
{
    let x = compute_ratio(prefix, total);
    let mut s = String::from_str("-");
    let a = format_fixed4(compute_arc4(radius, x));
    s.append(a.as_str());
    proof {
        reveal_strlit("-");
        assert(s@ =~= dashoffset_str(radius as int, prefix as int, total as int));
    }
    s
}

/// Sum of the byte sizes of (name, color, size) triples.
pub open spec fn sum_sizes(langs: Seq<(String, String, u64)>) -> int
    decreases langs.len(),
{
    if langs.len() == 0 {
        0
    } else {
        sum_sizes(langs.drop_last()) + langs.last().2
    }
}

proof fn lemma_sum_sizes_prefix(langs: Seq<(String, String, u64)>, n: int)
    requires
        0 <= n <= langs.len(),
    ensures
        sum_sizes(langs.take(n)) <= sum_sizes(langs),
    decreases langs.len() - n,
{
    if n == langs.len() {
        assert(langs.take(n) =~= langs);
    } else {
        assert(langs.take(n + 1).drop_last() =~= langs.take(n));
        lemma_sum_sizes_prefix(langs, n + 1);
    }
}

/// What one built segment states about its inputs: name and color carried
/// over, the three formatted strings exactly as the geometry functions give
/// them, and the legend offset by row index.
pub open spec fn segment_spec(
    seg: LangSegment,
    name: Seq<char>,
    color: Seq<char>,
    size: int,
    prefix: int,
    total: int,
    radius: int,
    idx: int,
    llh: int,
) -> bool {
    &&& seg.name@ == name
    &&& seg.color@ == color
    &&& seg.percent_text@ == percent_str(size, total)
    &&& seg.dasharray@ == dasharray_str(radius, size, total)
    &&& seg.dashoffset@ == dashoffset_str(radius, prefix, total)
    &&& seg.legend_dy == idx * llh
}

/// Turn ranked (name, color, byte-size) triples into pie-chart segments.
/// `total` is the byte total of the whole distribution the shares are
/// measured against; each share's offset is the accumulated arc of the
/// shares before it, and legend rows step by `legend_line_height`.
pub fn build_lang_segments(
    langs: &Vec<(String, String, u64)>,
    total: u64,
    radius: u32,
    legend_line_height: i32,
) -> (r: Vec<LangSegment>)
    requires
        1 <= total <= 1_000_000_000_000_000,
        sum_sizes(langs@) <= total,
        radius <= 1_000_000,
        0 <= legend_line_height,
        langs@.len() * legend_line_height <= i32::MAX,
    ensures
        r@.len() == langs@.len(),
        forall|i: int|
            0 <= i < r@.len() ==> segment_spec(
                #[trigger] r@[i],
                langs@[i].0@,
                langs@[i].1@,
                langs@[i].2 as int,
                sum_sizes(langs@.take(i)),
                total as int,
                radius as int,
                i,
                legend_line_height as int,
            ),
{
    let mut out: Vec<LangSegment> = Vec::new();
    let mut acc: u64 = 0;
    let mut i: usize = 0;
    while i < langs.len()
        invariant
            0 <= i <= langs@.len(),
            1 <= total <= 1_000_000_000_000_000,
            sum_sizes(langs@) <= total,
            radius <= 1_000_000,
            0 <= legend_line_height,
            langs@.len() * legend_line_height <= i32::MAX,
            acc == sum_sizes(langs@.take(i as int)),
            0 <= acc,
            out@.len() == i,
            forall|k: int|
                0 <= k < i ==> segment_spec(
                    #[trigger] out@[k],
                    langs@[k].0@,
                    langs@[k].1@,
                    langs@[k].2 as int,
                    sum_sizes(langs@.take(k)),
                    total as int,
                    radius as int,
                    k,
                    legend_line_height as int,
                ),
        decreases langs@.len() - i,
    {
        let size = langs[i].2;
        proof {
            assert(langs@.take(i + 1).drop_last() =~= langs@.take(i as int));
            assert(langs@.take(i + 1).last() == langs@[i as int]);
            lemma_sum_sizes_prefix(langs@, i + 1);
            assert(acc + size <= total);
        }
        let dy: i32 = if legend_line_height == 0 {
            proof {
                assert(i as int * (legend_line_height as int) == 0) by (nonlinear_arith)
                    requires
                        legend_line_height as int == 0,
                ;
            }
            0
        } else {
            proof {
                vstd::arithmetic::mul::lemma_mul_inequality(
                    1,
                    legend_line_height as int,
                    i as int,
                );
                vstd::arithmetic::mul::lemma_mul_inequality(
                    i as int,
                    i + 1,
                    legend_line_height as int,
                );
                vstd::arithmetic::mul::lemma_mul_inequality(
                    i + 1,
                    langs@.len() as int,
                    legend_line_height as int,
                );
                assert(1 * (i as int) == i as int && i as int * (legend_line_height as int)
                    == (legend_line_height as int) * (i as int)) by (nonlinear_arith);
            }
            (i as i32) * legend_line_height
        };
        let seg = LangSegment {
            name: langs[i].0.clone(),
            color: langs[i].1.clone(),
            percent_text: percent_text(size, total),
            dasharray: dasharray_text(radius, size, total),
            dashoffset: dashoffset_text(radius, acc, total),
            legend_dy: dy,
        };
        out.push(seg);
        acc = acc + size;
        i = i + 1;
    }
    out
}

} // verus!

verus! {

/// The full data set handed to the markup renderer for one card.
pub struct StatsCardTemplate {
    pub theme: Theme,
    pub width: i32,
    pub height: i32,
    pub radius: i32,
    pub pad_x: i32,
    pub title: String,
    pub aria_label: String,
    pub font_family: String,
    pub title_y: i32,
    pub title_size: i32,
    pub stats_rows: Vec<StatRow>,
    pub left_x: i32,
    pub left_y: i32,
    pub stat_value_x: i32,
    pub stat_label_size: i32,
    pub stat_value_size: i32,
    pub stat_label_opacity: String,
    pub top_languages_title: String,
    pub section_title_size: i32,
    pub pie_group_x: i32,
    pub pie_group_y: i32,
    pub pie_title_y: i32,
    pub pie_cx: i32,
    pub pie_cy: i32,
    pub pie_r: i32,
    pub pie_stroke: i32,
    pub pie_base_stroke: String,
    pub lang_segments: Vec<LangSegment>,
    pub show_pie: bool,
}

/// The fixed layout every card shares: every field the caller does not
/// supply holds its layout constant.
pub open spec fn card_layout(t: StatsCardTemplate) -> bool {
    &&& t.width == 400
    &&& t.height == 160
    &&& t.radius == 8
    &&& t.pad_x == 18
    &&& t.font_family@ ==
    "-apple-system, BlinkMacSystemFont, \"Segoe UI\", Helvetica, Arial, sans-serif"@
    &&& t.title_y == 28
    &&& t.title_size == 16
    &&& t.left_x == 18
    &&& t.left_y == 60
    &&& t.stat_value_x == 140
    &&& t.stat_label_size == 12
    &&& t.stat_value_size == 12
    &&& t.stat_label_opacity@ == "0.7"@
    &&& t.top_languages_title@ == "Top Languages"@
    &&& t.section_title_size == 12
    &&& t.pie_group_x == 230
    &&& t.pie_group_y == 40
    &&& t.pie_title_y == 12
    &&& t.pie_cx == 70
    &&& t.pie_cy == 70
    &&& t.pie_r == 40
    &&& t.pie_stroke == 12
    &&& t.pie_base_stroke@ == "#e1e4e8"@
}

/// Assemble the template data for a summary card: the caller's theme,
/// title, rows and segments under the fixed layout, the pie shown exactly
/// when there is at least one segment.
pub fn render_summary_card(
    theme: Theme,
    title: String,
    stats_rows: Vec<StatRow>,
    segments: Vec<LangSegment>,
    aria_label: String,
) -> (r: StatsCardTemplate)
    ensures
        card_layout(r),
        r.theme == theme,
        r.title == title,
        r.aria_label == aria_label,
        r.stats_rows == stats_rows,
        r.lang_segments == segments,
        r.show_pie == (segments@.len() > 0),
{
    let show_pie = !segments.is_empty();
    StatsCardTemplate {
        theme,
        width: 400,
        height: 160,
        radius: 8,
        pad_x: 18,
        title,
        aria_label,
        font_family: String::from_str(
            "-apple-system, BlinkMacSystemFont, \"Segoe UI\", Helvetica, Arial, sans-serif",
        ),
        title_y: 28,
        title_size: 16,
        stats_rows,
        left_x: 18,
        left_y: 60,
        stat_value_x: 140,
        stat_label_size: 12,
        stat_value_size: 12,
        stat_label_opacity: String::from_str("0.7"),
        top_languages_title: String::from_str("Top Languages"),
        section_title_size: 12,
        pie_group_x: 230,
        pie_group_y: 40,
        pie_title_y: 12,
        pie_cx: 70,
        pie_cy: 70,
        pie_r: 40,
        pie_stroke: 12,
        pie_base_stroke: String::from_str("#e1e4e8"),
        lang_segments: segments,
        show_pie,
    }
}

/// Assemble the template data for an error card: an "Error" title, one
/// message row, and no pie chart.
pub fn render_error_card(theme: Theme, message: String) -> (r: StatsCardTemplate)
    ensures
        card_layout(r),
        r.theme == theme,
        r.title@ == "Error"@,
        r.aria_label@ == "Error"@,
        r.stats_rows@.len() == 1,
        r.stats_rows@[0].label@ == "Message"@,
        r.stats_rows@[0].value == message,
        r.stats_rows@[0].dy == 0,
        r.lang_segments@.len() == 0,
        !r.show_pie,
{
    let mut rows: Vec<StatRow> = Vec::new();
    rows.push(StatRow { label: String::from_str("Message"), value: message, dy: 0 });
    render_summary_card(
        theme,
        String::from_str("Error"),
        rows,
        Vec::new(),
        String::from_str("Error"),
    )
}

} // verus!
