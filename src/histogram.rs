//! Lays out a ranked histogram: column widths, header, and one row per
//! selected pair with its count, its share of the total and a bar.
//!
//! Shares and bars are computed exactly in integers. A share is shown in
//! hundredths of a percent, rounded half to even, and is 0.00% when the
//! total is zero. A bar is empty when the largest shown value is zero.

use crate::pair::Pair;
use crate::rank::{rank_top, ranked, views};
use crate::settings::Settings;
use crate::text::{
    char_count, dec_digits, decimal, digit_char, pad_left, push_char, push_decimal, push_padded,
    push_repeat, push_str, repeat_char,
};
use vstd::prelude::*;
use vstd::string::StrSliceExecFns;

verus! {

/// How a bar is drawn.
#[derive(Debug, Clone, Copy, PartialEq, Eq, Structural)]
pub enum BarGlyphs {
    /// One glyph per full column, and one more as the cap.
    Single(char),
    /// The fill glyph per full column, then the cap glyph.
    FillCap(char, char),
    /// Full blocks per column, then a partial block for the eighths left.
    Eighths,
}

/// The partial block glyphs, from one eighth (index 0) to a full block (7).
pub open spec fn ladder(i: nat) -> char {
    if i == 0 {
        '\u{258F}'
    } else if i == 1 {
        '\u{258E}'
    } else if i == 2 {
        '\u{258D}'
    } else if i == 3 {
        '\u{258C}'
    } else if i == 4 {
        '\u{258B}'
    } else if i == 5 {
        '\u{258A}'
    } else if i == 6 {
        '\u{2589}'
    } else {
        '\u{2588}'
    }
}

fn ladder_glyph(i: u128) -> (r: char)
    requires
        i < 8,
    ensures
        r == ladder(i as nat),
{
    if i == 0 {
        '\u{258F}'
    } else if i == 1 {
        '\u{258E}'
    } else if i == 2 {
        '\u{258D}'
    } else if i == 3 {
        '\u{258C}'
    } else if i == 4 {
        '\u{258B}'
    } else if i == 5 {
        '\u{258A}'
    } else if i == 6 {
        '\u{2589}'
    } else {
        '\u{2588}'
    }
}

/// The glyphs that the settings ask for.
pub open spec fn glyphs_of(s: Settings) -> BarGlyphs {
    if s.partial_blocks {
        BarGlyphs::Eighths
    } else if s.histogram_char@.len() > 1 && !s.unicode_mode {
        BarGlyphs::FillCap(s.histogram_char@[0], s.histogram_char@[1])
    } else {
        BarGlyphs::Single(s.histogram_char@[0])
    }
}

/// The bar of `value` when `max` fills `width` columns.
pub open spec fn bar_text(g: BarGlyphs, max: nat, width: nat, value: nat) -> Seq<char> {
    if max == 0 {
        Seq::empty()
    } else {
        let fill = (value * width) / max;
        let rem = (value * width) % max;
        match g {
            BarGlyphs::Single(c) => repeat_char(c, fill).push(c),
            BarGlyphs::FillCap(f, cap) => repeat_char(f, fill).push(cap),
            BarGlyphs::Eighths => if 8 * rem > max {
                repeat_char(ladder(7), fill).push(ladder(8 * rem / max))
            } else {
                repeat_char(ladder(7), fill)
            },
        }
    }
}

/// Sum of the values.
pub open spec fn sum_values(s: Seq<(u64, Seq<char>)>) -> nat
    decreases s.len(),
{
    if s.len() == 0 {
        0
    } else {
        (sum_values(s.drop_last()) + s.last().0) as nat
    }
}

/// Largest value, zero when there is none.
pub open spec fn max_value(s: Seq<(u64, Seq<char>)>) -> nat
    decreases s.len(),
{
    if s.len() == 0 {
        0
    } else if s.last().0 > max_value(s.drop_last()) {
        s.last().0 as nat
    } else {
        max_value(s.drop_last())
    }
}

/// Largest key length in characters, zero when there is none.
pub open spec fn key_width(s: Seq<(u64, Seq<char>)>) -> nat
    decreases s.len(),
{
    if s.len() == 0 {
        0
    } else if s.last().1.len() > key_width(s.drop_last()) {
        s.last().1.len()
    } else {
        key_width(s.drop_last())
    }
}

/// `value` as a share of `total`, in hundredths of a percent, rounded half
/// to even; zero when the total is zero.
pub open spec fn pct_hundredths(value: nat, total: nat) -> nat {
    if total == 0 {
        0
    } else {
        let q = (10000 * value) / total;
        let r = (10000 * value) % total;
        if 2 * r > total || (2 * r == total && q % 2 == 1) {
            q + 1
        } else {
            q
        }
    }
}

/// The share column's text, `(V.VV%)`.
pub open spec fn pct_text(value: nat, total: nat) -> Seq<char> {
    let h = pct_hundredths(value, total);
    seq!['('] + dec_digits(h / 100) + seq!['.', digit_char((h / 10) % 10), digit_char(h % 10), '%', ')']
}

/// Columns left for the bar once key, count and share columns and their
/// four separators are placed; zero when they do not fit.
pub open spec fn bar_width(width: nat, key: nat, token: nat, pct: nat) -> nat {
    let content = key + 1 + token + 1 + pct + 1 + 1;
    if width > content {
        (width - content) as nat
    } else {
        0
    }
}

/// The two header lines for the given column widths.
pub open spec fn header_text(width: nat, key: nat, token: nat, pct: nat) -> Seq<char> {
    pad_left("Key"@, key) + seq!['|'] + pad_left("Ct"@, token) + seq![' '] + pad_left("(Pct)"@, pct)
        + " Histogram\n"@ + repeat_char('-', key) + seq!['|'] + repeat_char(
        '-',
        if width > key + 1 { (width - key - 1) as nat } else { 0 },
    ) + seq!['\n']
}

/// One row of the report.
pub open spec fn row_text(
    st: Settings,
    key: nat,
    token: nat,
    pct: nat,
    bar: nat,
    max: nat,
    total: nat,
    p: (u64, Seq<char>),
    last: bool,
) -> Seq<char> {
    pad_left(p.1, key) + st.regular_colour@ + seq!['|'] + st.ct_colour@ + pad_left(
        dec_digits(p.0 as nat),
        token,
    ) + seq![' '] + st.pct_colour@ + pad_left(pct_text(p.0 as nat, total), pct) + st.graph_colour@
        + seq![' '] + bar_text(glyphs_of(st), max, bar, p.0 as nat) + (if last {
        st.regular_colour@
    } else {
        st.key_colour@
    }) + seq!['\n']
}

/// The first `n` rows of the report of `data`.
pub open spec fn rows_text(
    st: Settings,
    key: nat,
    token: nat,
    pct: nat,
    bar: nat,
    max: nat,
    total: nat,
    data: Seq<(u64, Seq<char>)>,
    n: nat,
) -> Seq<char>
    decreases n,
{
    if n == 0 {
        Seq::empty()
    } else {
        rows_text(st, key, token, pct, bar, max, total, data, (n - 1) as nat) + row_text(
            st,
            key,
            token,
            pct,
            bar,
            max,
            total,
            data[n - 1],
            n == data.len(),
        )
    }
}

/// How many rows a report of `len` pairs shows.
pub open spec fn shown_rows(height: nat, len: nat) -> nat {
    if height < len {
        height
    } else {
        len
    }
}

/// The column widths of a report whose shown rows are `data`, out of pairs
/// whose values add to `total`.
pub open spec fn token_width(data: Seq<(u64, Seq<char>)>) -> nat {
    dec_digits(max_value(data)).len()
}

pub open spec fn pct_width(data: Seq<(u64, Seq<char>)>, total: nat) -> nat {
    pct_text(max_value(data), total).len()
}

/// The header of the report on the ranked pairs `all`, of which the first
/// `k` are shown.
pub open spec fn report_header(width: nat, all: Seq<(u64, Seq<char>)>, k: nat) -> Seq<char> {
    let data = all.take(k as int);
    header_text(width, key_width(data), token_width(data), pct_width(data, sum_values(all)))
}

/// The rows of the report on the ranked pairs `all`, of which the first `k`
/// are shown.
pub open spec fn report_body(st: Settings, width: nat, all: Seq<(u64, Seq<char>)>, k: nat) -> Seq<
    char,
> {
    let data = all.take(k as int);
    let total = sum_values(all);
    let kw = key_width(data);
    let tw = token_width(data);
    let pw = pct_width(data, total);
    rows_text(st, kw, tw, pw, bar_width(width, kw, tw, pw), max_value(data), total, data, k)
}

proof fn lemma_sum_remove(s: Seq<(u64, Seq<char>)>, i: int)
    requires
        0 <= i < s.len(),
    ensures
        sum_values(s) == sum_values(s.remove(i)) + s[i].0,
    decreases s.len(),
{
    if i < s.len() - 1 {
        lemma_sum_remove(s.drop_last(), i);
        assert(s.remove(i).drop_last() =~= s.drop_last().remove(i));
    } else {
        assert(s.remove(i) =~= s.drop_last());
    }
}

/// Rearranging pairs keeps their total.
pub proof fn lemma_sum_permutation(a: Seq<(u64, Seq<char>)>, b: Seq<(u64, Seq<char>)>)
    requires
        a.to_multiset() == b.to_multiset(),
    ensures
        sum_values(a) == sum_values(b),
    decreases a.len(),
{
    broadcast use {vstd::seq_lib::group_to_multiset_ensures, vstd::multiset::group_multiset_axioms};

    assert(a.to_multiset().len() == a.len());
    assert(b.to_multiset().len() == b.len());
    if a.len() > 0 {
        let x = a.last();
        assert(a.contains(x)) by {
            assert(a[a.len() - 1] == x);
        }
        assert(a.to_multiset().count(x) > 0);
        assert(b.contains(x));
        let i = choose|i: int| 0 <= i < b.len() && b[i] == x;
        assert(a.drop_last() =~= a.remove(a.len() - 1));
        assert(a.drop_last().to_multiset() =~= b.remove(i).to_multiset());
        lemma_sum_permutation(a.drop_last(), b.remove(i));
        lemma_sum_remove(b, i);
    }
}

proof fn lemma_value_le_max(s: Seq<(u64, Seq<char>)>, i: int)
    requires
        0 <= i < s.len(),
    ensures
        s[i].0 <= max_value(s),
    decreases s.len(),
{
    if i < s.len() - 1 {
        lemma_value_le_max(s.drop_last(), i);
    }
}

proof fn lemma_max_le_sum(s: Seq<(u64, Seq<char>)>)
    ensures
        max_value(s) <= sum_values(s),
    decreases s.len(),
{
    if s.len() > 0 {
        lemma_max_le_sum(s.drop_last());
    }
}

/// The shown rows weigh no more than all rows, and exactly as much when all
/// are shown: the shares printed add up to at most 100%, before rounding.
pub proof fn lemma_shown_sum_le_total(s: Seq<(u64, Seq<char>)>, k: int)
    requires
        0 <= k <= s.len(),
    ensures
        sum_values(s.take(k)) <= sum_values(s),
        k == s.len() ==> sum_values(s.take(k)) == sum_values(s),
    decreases s.len(),
{
    if k == s.len() {
        assert(s.take(k) =~= s);
    } else {
        lemma_shown_sum_le_total(s.drop_last(), k);
        assert(s.drop_last().take(k) =~= s.take(k));
    }
}

/// The pieces of one report, both ready to write.
pub struct Histogram {
    /// The two header lines, meant for the diagnostic stream.
    pub header: String,
    /// The rows.
    pub body: String,
}

/// Widths of the key, count and share columns.
#[derive(Debug, Clone, Copy)]
pub struct ColumnWidths {
    pub key: usize,
    pub token: usize,
    pub pct: usize,
}

/// Renders ranked pairs with the settings it was made with.
pub struct HistogramWriter {
    pub settings: Settings,
    pub height: usize,
    pub width: usize,
}

/// The share column's text for `value` out of `total`.
pub fn percentage(value: u64, total: u128) -> (r: String)
    requires
        value <= total,
    ensures
        r@ == pct_text(value as nat, total as nat),
{
    let ghost v = value as nat;
    let ghost t = total as nat;
    let h: u128 = if total == 0 {
        0
    } else {
        let scaled: u128 = 10000 * value as u128;
        let q = scaled / total;
        let r = scaled % total;
        proof {
            vstd::arithmetic::div_mod::lemma_div_is_ordered(10000 * v as int, 10000 * t as int, t as int);
            vstd::arithmetic::div_mod::lemma_div_multiples_vanish(10000, t as int);
            vstd::arithmetic::div_mod::lemma_fundamental_div_mod(10000 * v as int, t as int);
            assert(q <= 10000);
            if q == 10000 {
                assert(r == 0);
            }
        }
        if r > total - r || (r == total - r && q % 2 == 1) {
            q + 1
        } else {
            q
        }
    };
    assert(h == pct_hundredths(v, t));
    assert(h <= 10000);
    let mut s = String::new();
    push_char(&mut s, '(');
    push_decimal(&mut s, (h / 100) as u64);
    push_char(&mut s, '.');
    push_char(&mut s, (48u8 + ((h / 10) % 10) as u8) as char);
    push_char(&mut s, (48u8 + (h % 10) as u8) as char);
    push_char(&mut s, '%');
    push_char(&mut s, ')');
    assert(s@ =~= pct_text(v, t));
    s
}

impl HistogramWriter {
    pub fn new(settings: Settings) -> (r: HistogramWriter)
        ensures
            r.settings == settings,
            r.width == settings.width,
            r.height == settings.height,
    {
        let w = settings.width();
        let h = settings.height();
        HistogramWriter { settings, width: w, height: h }
    }

    /// The glyphs that the settings ask for.
    pub fn glyphs(&self) -> (g: BarGlyphs)
        requires
            self.settings.wf(),
        ensures
            g == glyphs_of(self.settings),
    {
        if self.settings.partial_blocks {
            BarGlyphs::Eighths
        } else {
            let hc = self.settings.histogram_char.as_str();
            let n = char_count(hc);
            if n > 1 && !self.settings.unicode_mode {
                BarGlyphs::FillCap(hc.get_char(0), hc.get_char(1))
            } else {
                BarGlyphs::Single(hc.get_char(0))
            }
        }
    }

    /// The bar of `bar_value` when `max_value` fills `bar_width` columns.
    pub fn histogram_bar(&self, max_value: u64, bar_width: usize, bar_value: u64) -> (r: String)
        requires
            self.settings.wf(),
            bar_value <= max_value,
        ensures
            r@ == bar_text(glyphs_of(self.settings), max_value as nat, bar_width as nat, bar_value as nat),
    {
        let g = self.glyphs();
        let mut bar = String::new();
        if max_value == 0 {
            return bar;
        }
        proof {
            vstd::arithmetic::mul::lemma_mul_upper_bound(
                bar_value as int,
                u64::MAX as int,
                bar_width as int,
                u64::MAX as int,
            );
        }
        let prod: u128 = bar_value as u128 * bar_width as u128;
        let m: u128 = max_value as u128;
        let fill_wide = prod / m;
        let rem = prod % m;
        proof {
            vstd::arithmetic::mul::lemma_mul_inequality(bar_value as int, max_value as int, bar_width as int);
            vstd::arithmetic::div_mod::lemma_div_is_ordered(prod as int, (max_value * bar_width) as int, m as int);
            vstd::arithmetic::div_mod::lemma_div_multiples_vanish(bar_width as int, m as int);
            assert(fill_wide <= bar_width);
        }
        let fill = fill_wide as usize;
        match g {
            BarGlyphs::Single(c) => {
                push_repeat(&mut bar, c, fill);
                push_char(&mut bar, c);
            },
            BarGlyphs::FillCap(f, cap) => {
                push_repeat(&mut bar, f, fill);
                push_char(&mut bar, cap);
            },
            BarGlyphs::Eighths => {
                push_repeat(&mut bar, ladder_glyph(7), fill);
                if 8 * rem > m {
                    proof {
                        vstd::arithmetic::div_mod::lemma_div_is_ordered(8 * rem as int, 8 * m as int, m as int);
                        vstd::arithmetic::div_mod::lemma_div_multiples_vanish(8, m as int);
                        vstd::arithmetic::div_mod::lemma_fundamental_div_mod(8 * rem as int, m as int);
                        assert((8 * rem) as int / m as int <= 7);
                    }
                    push_char(&mut bar, ladder_glyph(8 * rem / m));
                }
            },
        }
        assert(bar@ =~= bar_text(g, max_value as nat, bar_width as nat, bar_value as nat));
        bar
    }

    /// The two header lines for the given column widths.
    pub fn write_header(&self, col_widths: ColumnWidths) -> (r: String)
        ensures
            r@ == header_text(
                self.width as nat,
                col_widths.key as nat,
                col_widths.token as nat,
                col_widths.pct as nat,
            ),
    {
        let mut s = String::new();
        push_padded(&mut s, "Key", col_widths.key);
        push_char(&mut s, '|');
        push_padded(&mut s, "Ct", col_widths.token);
        push_char(&mut s, ' ');
        push_padded(&mut s, "(Pct)", col_widths.pct);
        push_str(&mut s, " Histogram\n");
        push_repeat(&mut s, '-', col_widths.key);
        push_char(&mut s, '|');
        let rest: usize = if self.width > col_widths.key {
            self.width - col_widths.key - 1
        } else {
            0
        };
        push_repeat(&mut s, '-', rest);
        push_char(&mut s, '\n');
        assert(s@ =~= header_text(
            self.width as nat,
            col_widths.key as nat,
            col_widths.token as nat,
            col_widths.pct as nat,
        ));
        s
    }

    /// Appends one row.
    fn push_row(
        &self,
        out: &mut String,
        p: &Pair,
        w: ColumnWidths,
        bar: usize,
        max: u64,
        total: u128,
        last: bool,
    )
        requires
            self.settings.wf(),
            p@.0 <= max,
            p@.0 <= total,
        ensures
            final(out)@ == old(out)@ + row_text(
                self.settings,
                w.key as nat,
                w.token as nat,
                w.pct as nat,
                bar as nat,
                max as nat,
                total as nat,
                p@,
                last,
            ),
    {
        let ghost start = out@;
        push_padded(out, p.key(), w.key);
        push_str(out, self.settings.regular_colour.as_str());
        push_char(out, '|');
        push_str(out, self.settings.ct_colour.as_str());
        let count = decimal(p.value());
        push_padded(out, count.as_str(), w.token);
        push_char(out, ' ');
        push_str(out, self.settings.pct_colour.as_str());
        let share = percentage(p.value(), total);
        push_padded(out, share.as_str(), w.pct);
        push_str(out, self.settings.graph_colour.as_str());
        push_char(out, ' ');
        let b = self.histogram_bar(max, bar, p.value());
        push_str(out, b.as_str());
        if last {
            push_str(out, self.settings.regular_colour.as_str());
        } else {
            push_str(out, self.settings.key_colour.as_str());
        }
        push_char(out, '\n');
        assert(out@ =~= start + row_text(
            self.settings,
            w.key as nat,
            w.token as nat,
            w.pct as nat,
            bar as nat,
            max as nat,
            total as nat,
            p@,
            last,
        ));
    }

    /// Sorts `pairlist` in place, heaviest first and ties by the larger key,
    /// and lays out the report of its first `min(height, len)` pairs. Shares are of the total of all
    /// pairs; bars are scaled to the largest shown value.
    pub fn write_histogram(&self, pairlist: &mut Vec<Pair>) -> (r: Histogram)
        requires
            self.settings.wf(),
        ensures
            views(final(pairlist)@).to_multiset() == views(old(pairlist)@).to_multiset(),
            sum_values(views(final(pairlist)@)) == sum_values(views(old(pairlist)@)),
            ranked(views(final(pairlist)@)),
            r.header@ == report_header(
                self.width as nat,
                views(final(pairlist)@),
                shown_rows(self.height as nat, old(pairlist)@.len()),
            ),
            r.body@ == report_body(
                self.settings,
                self.width as nat,
                views(final(pairlist)@),
                shown_rows(self.height as nat, old(pairlist)@.len()),
            ),
    {
        let ghost given = views(pairlist@);
        let k = rank_top(pairlist, self.height);
        proof {
            lemma_sum_permutation(views(pairlist@), given);
        }
        let n = pairlist.len();
        let ghost all = views(pairlist@);
        let ghost data = all.take(k as int);
        let mut total: u128 = 0;
        let mut i: usize = 0;
        while i < n
            invariant
                n == pairlist@.len(),
                all == views(pairlist@),
                i <= n,
                total == sum_values(all.take(i as int)),
                total <= i * u64::MAX,
            decreases n - i,
        {
            proof {
                assert(all.take(i + 1).drop_last() =~= all.take(i as int));
                vstd::arithmetic::mul::lemma_mul_inequality(i + 1, u64::MAX as int, u64::MAX as int);
            }
            total = total + pairlist[i].value() as u128;
            i = i + 1;
        }
        assert(all.take(n as int) =~= all);
        let mut max: u64 = 0;
        let mut kw: usize = 0;
        i = 0;
        while i < k
            invariant
                k <= n,
                n == pairlist@.len(),
                all == views(pairlist@),
                data == all.take(k as int),
                i <= k,
                max == max_value(data.take(i as int)),
                kw == key_width(data.take(i as int)),
            decreases k - i,
        {
            proof {
                assert(data.take(i + 1).drop_last() =~= data.take(i as int));
            }
            let p = &pairlist[i];
            let v = p.value();
            if v > max {
                max = v;
            }
            let len = char_count(p.key());
            if len > kw {
                kw = len;
            }
            i = i + 1;
        }
        assert(data.take(k as int) =~= data);
        proof {
            lemma_max_le_sum(data);
            lemma_shown_sum_le_total(all, k as int);
        }
        let tw = char_count(decimal(max).as_str());
        let pw = char_count(percentage(max, total).as_str());
        let content: u128 = kw as u128 + tw as u128 + pw as u128 + 4;
        let bar: usize = if (self.width as u128) > content {
            (self.width as u128 - content) as usize
        } else {
            0
        };
        let widths = ColumnWidths { key: kw, token: tw, pct: pw };
        let header = self.write_header(widths);
        let mut body = String::new();
        i = 0;
        while i < k
            invariant
                self.settings.wf(),
                k <= n,
                n == pairlist@.len(),
                all == views(pairlist@),
                data == all.take(k as int),
                i <= k,
                max == max_value(data),
                max <= total,
                widths.key == kw && widths.token == tw && widths.pct == pw,
                body@ == rows_text(
                    self.settings,
                    kw as nat,
                    tw as nat,
                    pw as nat,
                    bar as nat,
                    max as nat,
                    total as nat,
                    data,
                    i as nat,
                ),
            decreases k - i,
        {
            proof {
                lemma_value_le_max(data, i as int);
                assert(data[i as int] == pairlist@[i as int]@);
                assert(data.len() == k);
            }
            self.push_row(&mut body, &pairlist[i], widths, bar, max, total, i + 1 == k);
            i = i + 1;
        }
        Histogram { header, body }
    }
}

} // verus!
