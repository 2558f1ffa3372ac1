//! Reading the totals row.

use crate::geometry::{gap, gap_of, UNIT};
use crate::model::{fragments, fragments_of_refs, Fragment, Invoice, InvoiceView, TextItem};
use crate::nearby::{extract_nearby_text, nearby_text, texts_of};
use crate::order::{key_ints, lemma_ranking_is_permutation, sort_by_keys};
use crate::pattern::{hits, pattern_hits};
use crate::rows::{left_to_right, lefts};
use crate::scan::{first_index, lemma_first_index, lemma_select_step, select};
use crate::text::{
    chars_of, str_eq, string_of, strip_currency, strip_currency_chars,
};
use crate::words::{
    AMOUNT_FORMAT, IN_FIGURES_PATTERN, NUMBER_FORMAT, RIGHT, TOTAL_SECOND_GLYPH, TOTAL_WORD,
    YUAN_SIGN, YUAN_SIGN_WIDE,
};
use vstd::prelude::*;

verus! {

/// How far above or below the totals word an amount may start (exclusive).
pub const TOTALS_LINE_TOLERANCE: i64 = 5 * UNIT;

/// How far to the right of its label the total in figures may start.
pub const IN_FIGURES_REACH: i64 = 100 * UNIT;

/// Accepts the fragments that start the totals row.
pub open spec fn is_totals_word() -> spec_fn(Fragment) -> bool {
    |f: Fragment| f.text == TOTAL_SECOND_GLYPH@ || f.text == TOTAL_WORD@
}

/// Accepts the fragments on the line of `anchor` and to its right.
pub open spec fn right_on_line(anchor: Fragment) -> spec_fn(Fragment) -> bool {
    |f: Fragment| gap(f.y, anchor.y) < TOTALS_LINE_TOLERANCE && f.x > anchor.x
}

/// Whether the text is a currency sign and nothing else.
pub open spec fn is_lone_sign(text: Seq<char>) -> bool {
    text == YUAN_SIGN@ || text == YUAN_SIGN_WIDE@
}

/// One text of the totals row, with what the formats say of it.
#[derive(Debug, Clone)]
pub struct TotalsCell {
    pub text: String,
    pub is_amount: bool,
    pub is_number: bool,
}

/// What a `TotalsCell` stands for.
pub struct TotalsCellView {
    pub text: Seq<char>,
    pub is_amount: bool,
    pub is_number: bool,
}

impl View for TotalsCell {
    type V = TotalsCellView;

    open spec fn view(&self) -> TotalsCellView {
        TotalsCellView { text: self.text@, is_amount: self.is_amount, is_number: self.is_number }
    }
}

/// What a list of cells stands for.
pub open spec fn totals_cell_views(cells: Seq<TotalsCell>) -> Seq<TotalsCellView> {
    Seq::new(cells.len(), |i: int| cells[i]@)
}

/// The cell with the given text: it is an amount if the amount format
/// matches the text, and a bare number if the number format does.
pub open spec fn judged_total(text: Seq<char>) -> TotalsCellView {
    TotalsCellView {
        text: text,
        is_amount: pattern_hits(AMOUNT_FORMAT@, text),
        is_number: pattern_hits(NUMBER_FORMAT@, text),
    }
}

/// The cells with the given texts.
pub open spec fn judged_totals(texts: Seq<Seq<char>>) -> Seq<TotalsCellView> {
    Seq::new(texts.len(), |i: int| judged_total(texts[i]))
}

/// The amounts printed in the cells from position `from` on, in order and
/// without currency signs. An amount is the text of an amount cell, or a
/// bare number that follows a lone currency sign; such a number is not read
/// a second time.
pub open spec fn printed_amounts(cells: Seq<TotalsCellView>, from: int) -> Seq<Seq<char>>
    decreases cells.len() - from,
{
    if from < 0 || from >= cells.len() {
        Seq::empty()
    } else if cells[from].is_amount {
        seq![strip_currency(cells[from].text)] + printed_amounts(cells, from + 1)
    } else if is_lone_sign(cells[from].text) && from + 1 < cells.len() && cells[from
        + 1].is_number {
        seq![cells[from + 1].text] + printed_amounts(cells, from + 2)
    } else {
        printed_amounts(cells, from + 1)
    }
}

/// The fragments of the totals row behind its first word, from left to
/// right.
pub open spec fn totals_line(frags: Seq<Fragment>, anchor: Fragment) -> Seq<Fragment> {
    left_to_right(select(frags, right_on_line(anchor)))
}

/// The record after the totals row has been read. Without the totals word
/// nothing changes. With it, the first printed amount of the row is the
/// total amount and the second the total tax, each kept where the row does
/// not print it; the total with tax is the text to the right of the label of
/// the total in figures, without currency signs.
pub open spec fn with_totals(invoice: InvoiceView, frags: Seq<Fragment>) -> InvoiceView {
    let at = first_index(frags, is_totals_word());
    if at >= frags.len() {
        invoice
    } else {
        let values = printed_amounts(judged_totals(texts_of(totals_line(frags, frags[at]))), 0);
        InvoiceView {
            total_amount: if values.len() > 0 {
                values[0]
            } else {
                invoice.total_amount
            },
            total_tax: if values.len() > 1 {
                values[1]
            } else {
                invoice.total_tax
            },
            total_amount_tax: strip_currency(
                nearby_text(frags, IN_FIGURES_PATTERN@, RIGHT@, IN_FIGURES_REACH as int),
            ),
            ..invoice
        }
    }
}

/// What a list of strings stands for.
pub open spec fn string_views(strings: Seq<String>) -> Seq<Seq<char>> {
    Seq::new(strings.len(), |i: int| strings[i]@)
}

/// The text without currency signs.
pub fn without_currency(text: &str) -> (stripped: String)
    ensures
        stripped@ == strip_currency(text@),
{
    let chars = chars_of(text);
    let kept = strip_currency_chars(&chars);
    string_of(&kept)
}

/// The position of the first item that starts the totals row, or the number
/// of items if there is none.
fn find_totals_word(text_items: &[TextItem]) -> (at: usize)
    ensures
        at == first_index(fragments(text_items@), is_totals_word()),
        at <= text_items.len(),
{
    let ghost frags = fragments(text_items@);
    let mut i: usize = 0;
    while i < text_items.len()
        invariant
            i <= text_items.len(),
            frags == fragments(text_items@),
            forall|j: int| 0 <= j < i ==> !is_totals_word()(#[trigger] frags[j]),
        decreases text_items.len() - i,
    {
        let text: &str = text_items[i].text.as_str();
        if str_eq(text, TOTAL_SECOND_GLYPH) || str_eq(text, TOTAL_WORD) {
            proof {
                lemma_first_index(frags, is_totals_word(), i as int);
            }
            return i;
        }
        i += 1;
    }
    proof {
        lemma_first_index(frags, is_totals_word(), i as int);
    }
    i
}

/// The items of the totals row behind `anchor`, from left to right.
fn collect_totals_line<'a>(text_items: &'a [TextItem], anchor: &TextItem) -> (line: Vec<
    &'a TextItem,
>)
    ensures
        fragments_of_refs(line@) == totals_line(fragments(text_items@), anchor@),
{
    let ghost frags = fragments(text_items@);
    let ghost want = right_on_line(anchor@);
    let mut found: Vec<&'a TextItem> = Vec::new();
    let mut keys: Vec<i128> = Vec::new();
    let mut i: usize = 0;
    assert(fragments_of_refs(found@) =~= select(frags.take(0), want));
    while i < text_items.len()
        invariant
            i <= text_items.len(),
            frags == fragments(text_items@),
            want == right_on_line(anchor@),
            found.len() == keys.len(),
            fragments_of_refs(found@) == select(frags.take(i as int), want),
            key_ints(keys@) == lefts(fragments_of_refs(found@)),
        decreases text_items.len() - i,
    {
        let item: &'a TextItem = &text_items[i];
        proof {
            lemma_select_step(frags, want, i as int);
        }
        if gap_of(item.y, anchor.y) < TOTALS_LINE_TOLERANCE as i128 && item.x > anchor.x {
            let ghost before = fragments_of_refs(found@);
            let ghost keys_before = key_ints(keys@);
            found.push(item);
            keys.push(item.x as i128);
            proof {
                assert(fragments_of_refs(found@) =~= before.push(item@));
                assert(key_ints(keys@) =~= keys_before.push(item@.x));
                assert(key_ints(keys@) =~= lefts(fragments_of_refs(found@)));
            }
        }
        i += 1;
    }
    assert(frags.take(text_items.len() as int) == frags);
    let line = sort_by_keys(&found, &keys);
    proof {
        let all = fragments_of_refs(found@);
        lemma_ranking_is_permutation(lefts(all));
        assert(fragments_of_refs(line@) =~= left_to_right(all));
    }
    line
}

/// The amounts printed in the cells, in order and without currency signs.
/// An amount cell gives its text without the signs; a lone currency sign
/// followed by a bare number gives the number, which is then passed over.
pub fn amounts_of(cells: &Vec<TotalsCell>) -> (values: Vec<String>)
    ensures
        string_views(values@) == printed_amounts(totals_cell_views(cells@), 0),
{
    let ghost all = totals_cell_views(cells@);
    let mut values: Vec<String> = Vec::new();
    let mut i: usize = 0;
    assert(string_views(values@) + printed_amounts(all, 0) =~= printed_amounts(all, 0));
    while i < cells.len()
        invariant
            i <= cells.len(),
            all == totals_cell_views(cells@),
            string_views(values@) + printed_amounts(all, i as int) == printed_amounts(all, 0),
        decreases cells.len() - i,
    {
        let cell: &TotalsCell = &cells[i];
        let text: &str = cell.text.as_str();
        let ghost before = string_views(values@);
        assert(all[i as int] == cell@);
        if cell.is_amount {
            values.push(without_currency(text));
            assert(string_views(values@) =~= before + seq![strip_currency(text@)]);
            assert(string_views(values@) + printed_amounts(all, i + 1) =~= before
                + printed_amounts(all, i as int));
            i += 1;
        } else if (str_eq(text, YUAN_SIGN) || str_eq(text, YUAN_SIGN_WIDE)) && i + 1 < cells.len()
            && cells[i + 1].is_number {
            let next: &TotalsCell = &cells[i + 1];
            assert(all[i + 1] == next@);
            values.push(next.text.clone());
            assert(string_views(values@) =~= before + seq![next.text@]);
            assert(string_views(values@) + printed_amounts(all, i + 2) =~= before
                + printed_amounts(all, i as int));
            i += 2;
        } else {
            i += 1;
        }
    }
    assert(string_views(values@) + printed_amounts(all, cells.len() as int) =~= string_views(
        values@,
    ));
    values
}

/// The texts of the line, each judged by the two formats.
fn judge_line(line: &Vec<&TextItem>) -> (cells: Vec<TotalsCell>)
    ensures
        totals_cell_views(cells@) == judged_totals(texts_of(fragments_of_refs(line@))),
{
    let ghost texts = texts_of(fragments_of_refs(line@));
    let mut cells: Vec<TotalsCell> = Vec::new();
    let mut i: usize = 0;
    while i < line.len()
        invariant
            i <= line.len(),
            cells.len() == i,
            texts == texts_of(fragments_of_refs(line@)),
            forall|k: int| 0 <= k < i ==> (#[trigger] cells[k])@ == judged_total(texts[k]),
        decreases line.len() - i,
    {
        let text: &str = line[i].text.as_str();
        assert(texts[i as int] == text@);
        cells.push(
            TotalsCell {
                text: text.to_owned(),
                is_amount: hits(AMOUNT_FORMAT, text),
                is_number: hits(NUMBER_FORMAT, text),
            },
        );
        i += 1;
    }
    assert(totals_cell_views(cells@) =~= judged_totals(texts));
    cells
}

/// The amounts printed on the line, in order and without currency signs.
fn read_amounts(line: &Vec<&TextItem>) -> (values: Vec<String>)
    ensures
        string_views(values@) == printed_amounts(
            judged_totals(texts_of(fragments_of_refs(line@))),
            0,
        ),
{
    let cells = judge_line(line);
    amounts_of(&cells)
}

/// Reads the totals row into the record. The row starts at the first item
/// whose text is the totals word or its second glyph. Without that item the
/// record stays as it is.
pub fn extract_total_amount_and_tax(text_items: &[TextItem], invoice: &mut Invoice)
    ensures
        final(invoice)@ == with_totals(old(invoice)@, fragments(text_items@)),
{
    let at = find_totals_word(text_items);
    if at >= text_items.len() {
        return ;
    }
    let line = collect_totals_line(text_items, &text_items[at]);
    let values = read_amounts(&line);
    if values.len() > 0 {
        invoice.total_amount = values[0].clone();
        if values.len() > 1 {
            invoice.total_tax = values[1].clone();
        }
    }
    let in_figures = extract_nearby_text(text_items, IN_FIGURES_PATTERN, RIGHT, IN_FIGURES_REACH);
    invoice.total_amount_tax = without_currency(in_figures.as_str());
}

} // verus!
