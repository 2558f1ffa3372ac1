//! Reading the block of the buyer or of the seller.

use crate::geometry::{floor_of, floor_unit, gap, gap_of, UNIT};
use crate::model::{
    fragments, fragments_of_refs, Fragment, Invoice, InvoiceParty, InvoiceView, PartyView,
    TextItem,
};
use crate::nearby::{matching, texts_of};
use crate::pattern::hits;
use crate::scan::{
    first_index, last_index, lemma_first_index, lemma_last_index, lemma_select_step, select,
};
use crate::text::{
    append_chars, chars_of, concat_all, contains_colon, has_colon, str_eq, string_of,
};
use crate::words::{
    BLOCK_END, BLOCK_END_SHORT, BLOCK_END_SHORT_ALT, INVOICE_TYPE_GENERAL, PARTY_ADDRESS_PATTERN,
    PARTY_BANK_PATTERN, PARTY_NAME_PATTERN, PARTY_TAX_CODE_PATTERN,
};
use vstd::prelude::*;

verus! {

/// How far the left edge of a block's closing glyph may lie from the left
/// edge of its heading glyph.
pub const COLUMN_TOLERANCE: i64 = UNIT;

/// How far below the heading glyph the short closing glyph may stand
/// (exclusive).
pub const SHORT_BLOCK_HEIGHT: i64 = 50 * UNIT;

/// How far above or below a label a value may start.
pub const LABEL_LINE_TOLERANCE: i64 = 6 * UNIT;

/// Accepts the fragments with the given text.
pub open spec fn has_text(text: Seq<char>) -> spec_fn(Fragment) -> bool {
    |f: Fragment| f.text == text
}

/// Whether `f` stands below `header` in the header's column.
pub open spec fn below_in_column(header: Fragment, f: Fragment) -> bool {
    gap(header.x, f.x) <= COLUMN_TOLERANCE && f.y > header.y
}

/// Accepts the closing glyphs below `header` in its column.
pub open spec fn closes_block(header: Fragment) -> spec_fn(Fragment) -> bool {
    |f: Fragment| below_in_column(header, f) && f.text == BLOCK_END@
}

/// Accepts the short closing glyphs that stand below `header` in its column
/// and near it.
pub open spec fn closes_short_block(header: Fragment) -> spec_fn(Fragment) -> bool {
    |f: Fragment|
        below_in_column(header, f) && (f.text == BLOCK_END_SHORT@ || f.text
            == BLOCK_END_SHORT_ALT@) && gap(f.y, header.y) < SHORT_BLOCK_HEIGHT
}

/// The position of the fragment that closes the block of `header`: the last
/// closing glyph, or, where there is none, the first short closing glyph; the
/// number of fragments if there is neither.
pub open spec fn block_footer(frags: Seq<Fragment>, header: Fragment) -> int {
    let long = last_index(frags, closes_block(header));
    if long < frags.len() {
        long
    } else {
        first_index(frags, closes_short_block(header))
    }
}

/// A rectangle on one page, edges included.
pub struct Region {
    pub left: int,
    pub right: int,
    pub top: int,
    pub bottom: int,
    pub page: nat,
}

/// How far the block's rectangle reaches to the left of, to the right of and
/// beyond the glyphs, by the type of the invoice.
pub open spec fn block_offsets(invoice_type: Seq<char>) -> (int, int, int) {
    if invoice_type == INVOICE_TYPE_GENERAL@ {
        (8 * UNIT, 250 * UNIT, 0)
    } else {
        (15 * UNIT, 300 * UNIT, 8 * UNIT)
    }
}

/// The rectangle of the block between `header` and `footer`.
pub open spec fn party_region(header: Fragment, footer: Fragment, invoice_type: Seq<char>)
    -> Region {
    let (left, right, pad) = block_offsets(invoice_type);
    Region {
        left: floor_unit(header.x) + left,
        right: floor_unit(header.x) + right,
        top: floor_unit(header.y) - pad,
        bottom: floor_unit(footer.y) + pad,
        page: footer.page_index,
    }
}

/// Accepts the fragments whose top-left corner lies in the region.
pub open spec fn in_region(region: Region) -> spec_fn(Fragment) -> bool {
    |f: Fragment|
        region.left <= f.x <= region.right && region.top <= f.y <= region.bottom
            && f.page_index == region.page
}

/// Accepts the fragments that start to the right of where `label` ends,
/// start on its line and hold no colon.
pub open spec fn right_of_label(label: Fragment) -> spec_fn(Fragment) -> bool {
    |f: Fragment|
        f.x > label.x + label.width && gap(f.y, label.y) <= LABEL_LINE_TOLERANCE && !has_colon(
            f.text,
        )
}

/// The value behind the label at position `at` of a block: the texts of the
/// fragments to the right of the label, written one after another in their
/// given order; empty where `at` is no position of the block.
pub open spec fn value_right_of(pool: Seq<Fragment>, at: int) -> Seq<char> {
    if 0 <= at < pool.len() {
        concat_all(texts_of(select(pool, right_of_label(pool[at]))))
    } else {
        Seq::empty()
    }
}

/// The value of a field in a block: the texts to the right of the first
/// fragment that the label pattern matches, written one after another; empty
/// without such a fragment.
pub open spec fn field_value(pool: Seq<Fragment>, pattern: Seq<char>) -> Seq<char> {
    value_right_of(pool, first_index(pool, matching(pattern)))
}

/// The party that a block describes.
pub open spec fn party_of(pool: Seq<Fragment>) -> PartyView {
    PartyView {
        name: field_value(pool, PARTY_NAME_PATTERN@),
        tax_code: field_value(pool, PARTY_TAX_CODE_PATTERN@),
        address_phone: field_value(pool, PARTY_ADDRESS_PATTERN@),
        bank_account: field_value(pool, PARTY_BANK_PATTERN@),
    }
}

/// The fragments of the block that `header_char` heads, if the page holds
/// the heading glyph and a closing glyph for it.
pub open spec fn party_pool(frags: Seq<Fragment>, header_char: Seq<char>, invoice_type: Seq<char>)
    -> Option<Seq<Fragment>> {
    let head = first_index(frags, has_text(header_char));
    if head >= frags.len() {
        None
    } else {
        let foot = block_footer(frags, frags[head]);
        if foot >= frags.len() {
            None
        } else {
            Some(select(frags, in_region(party_region(frags[head], frags[foot], invoice_type))))
        }
    }
}

/// The record after the block of one party has been read: with a block, the
/// seller or the buyer is what the block describes; without one, nothing
/// changes.
pub open spec fn with_party(
    invoice: InvoiceView,
    frags: Seq<Fragment>,
    header_char: Seq<char>,
    is_seller: bool,
) -> InvoiceView {
    match party_pool(frags, header_char, invoice.invoice_type) {
        None => invoice,
        Some(pool) => if is_seller {
            InvoiceView { seller: party_of(pool), ..invoice }
        } else {
            InvoiceView { buyer: party_of(pool), ..invoice }
        },
    }
}

/// The position of the first item with the given text, or the number of
/// items if there is none.
pub fn find_text(text_items: &[TextItem], text: &str) -> (at: usize)
    ensures
        at == first_index(fragments(text_items@), has_text(text@)),
        at <= text_items.len(),
{
    let ghost frags = fragments(text_items@);
    let mut i: usize = 0;
    while i < text_items.len()
        invariant
            i <= text_items.len(),
            frags == fragments(text_items@),
            forall|j: int| 0 <= j < i ==> !has_text(text@)(#[trigger] frags[j]),
        decreases text_items.len() - i,
    {
        if str_eq(text_items[i].text.as_str(), text) {
            proof {
                lemma_first_index(frags, has_text(text@), i as int);
            }
            return i;
        }
        i += 1;
    }
    proof {
        lemma_first_index(frags, has_text(text@), i as int);
    }
    i
}

/// Whether `f` stands below `header` in the header's column.
fn stands_below_in_column(header: &TextItem, f: &TextItem) -> (r: bool)
    ensures
        r == below_in_column(header@, f@),
{
    gap_of(header.x, f.x) <= COLUMN_TOLERANCE as i128 && f.y > header.y
}

/// The position of the item that closes the block of `header`.
pub fn find_block_footer(text_items: &[TextItem], header: &TextItem) -> (at: usize)
    ensures
        at == block_footer(fragments(text_items@), header@),
        at <= text_items.len(),
{
    let ghost frags = fragments(text_items@);
    let mut long: usize = text_items.len();
    let mut i: usize = 0;
    while i < text_items.len()
        invariant
            i <= text_items.len(),
            frags == fragments(text_items@),
            long < i || long == text_items.len(),
            long < i ==> closes_block(header@)(frags[long as int]),
            forall|j: int|
                0 <= j < i && (long == text_items.len() || long < j) ==> !closes_block(header@)(
                    #[trigger] frags[j],
                ),
        decreases text_items.len() - i,
    {
        let item: &TextItem = &text_items[i];
        if stands_below_in_column(header, item) && str_eq(item.text.as_str(), BLOCK_END) {
            long = i;
        }
        i += 1;
    }
    proof {
        lemma_last_index(frags, closes_block(header@), long as int);
    }
    if long < text_items.len() {
        return long;
    }
    let mut k: usize = 0;
    while k < text_items.len()
        invariant
            k <= text_items.len(),
            frags == fragments(text_items@),
            last_index(frags, closes_block(header@)) == frags.len(),
            forall|j: int| 0 <= j < k ==> !closes_short_block(header@)(#[trigger] frags[j]),
        decreases text_items.len() - k,
    {
        let item: &TextItem = &text_items[k];
        if stands_below_in_column(header, item) && (str_eq(item.text.as_str(), BLOCK_END_SHORT)
            || str_eq(item.text.as_str(), BLOCK_END_SHORT_ALT)) && gap_of(item.y, header.y)
            < SHORT_BLOCK_HEIGHT as i128 {
            proof {
                lemma_first_index(frags, closes_short_block(header@), k as int);
            }
            return k;
        }
        k += 1;
    }
    proof {
        lemma_first_index(frags, closes_short_block(header@), k as int);
    }
    k
}

/// The items of the block between `header` and `footer`.
fn collect_block<'a>(
    text_items: &'a [TextItem],
    header: &TextItem,
    footer: &TextItem,
    invoice_type: &str,
) -> (pool: Vec<&'a TextItem>)
    ensures
        fragments_of_refs(pool@) == select(
            fragments(text_items@),
            in_region(party_region(header@, footer@, invoice_type@)),
        ),
{
    let ghost frags = fragments(text_items@);
    let ghost region = party_region(header@, footer@, invoice_type@);
    let general = str_eq(invoice_type, INVOICE_TYPE_GENERAL);
    let unit: i128 = UNIT as i128;
    let offset_left: i128 = if general {
        8 * unit
    } else {
        15 * unit
    };
    let offset_right: i128 = if general {
        250 * unit
    } else {
        300 * unit
    };
    let pad: i128 = if general {
        0
    } else {
        8 * unit
    };
    let left: i128 = floor_of(header.x) + offset_left;
    let right: i128 = floor_of(header.x) + offset_right;
    let top: i128 = floor_of(header.y) - pad;
    let bottom: i128 = floor_of(footer.y) + pad;
    let mut pool: Vec<&'a TextItem> = Vec::new();
    let mut i: usize = 0;
    assert(fragments_of_refs(pool@) =~= select(frags.take(0), in_region(region)));
    while i < text_items.len()
        invariant
            i <= text_items.len(),
            frags == fragments(text_items@),
            region == party_region(header@, footer@, invoice_type@),
            left == region.left,
            right == region.right,
            top == region.top,
            bottom == region.bottom,
            fragments_of_refs(pool@) == select(frags.take(i as int), in_region(region)),
        decreases text_items.len() - i,
    {
        let item: &'a TextItem = &text_items[i];
        proof {
            lemma_select_step(frags, in_region(region), i as int);
        }
        if item.x as i128 >= left && item.x as i128 <= right && item.y as i128 >= top
            && item.y as i128 <= bottom && item.page_index == footer.page_index {
            let ghost before = fragments_of_refs(pool@);
            pool.push(item);
            assert(fragments_of_refs(pool@) =~= before.push(item@));
        }
        i += 1;
    }
    assert(frags.take(text_items.len() as int) == frags);
    pool
}

/// The value behind the label at position `at` of a block: the texts of the
/// items that start to the right of where the label ends, start no more than
/// `LABEL_LINE_TOLERANCE` above or below it and hold no colon, written one
/// after another in their given order. Where `at` is no position of the
/// block, the value is empty.
pub fn field_value_at(pool: &[&TextItem], at: usize) -> (value: String)
    ensures
        value@ == value_right_of(fragments_of_refs(pool@), at as int),
{
    let ghost frags = fragments_of_refs(pool@);
    if at >= pool.len() {
        return String::new();
    }
    let label: &TextItem = pool[at];
    let label_right: i128 = label.x as i128 + label.width as i128;
    let ghost want = right_of_label(label@);
    let mut value: Vec<char> = Vec::new();
    let mut i: usize = 0;
    assert(texts_of(select(frags.take(0), want)) =~= Seq::empty());
    while i < pool.len()
        invariant
            i <= pool.len(),
            frags == fragments_of_refs(pool@),
            want == right_of_label(label@),
            label_right == label@.x + label@.width,
            value@ == concat_all(texts_of(select(frags.take(i as int), want))),
        decreases pool.len() - i,
    {
        let item: &TextItem = pool[i];
        proof {
            lemma_select_step(frags, want, i as int);
        }
        if item.x as i128 > label_right && gap_of(item.y, label.y) <= LABEL_LINE_TOLERANCE as i128
            && !contains_colon(item.text.as_str()) {
            let ghost before = select(frags.take(i as int), want);
            let chars = chars_of(item.text.as_str());
            append_chars(&mut value, &chars);
            proof {
                let after = before.push(frags[i as int]);
                assert(texts_of(after).drop_last() =~= texts_of(before));
                assert(texts_of(after).last() == item.text@);
            }
        }
        i += 1;
    }
    assert(frags.take(pool.len() as int) == frags);
    string_of(&value)
}

/// The value of a field in a block.
fn get_field_value(pool: &Vec<&TextItem>, label_pattern: &str) -> (value: String)
    ensures
        value@ == field_value(fragments_of_refs(pool@), label_pattern@),
{
    let ghost frags = fragments_of_refs(pool@);
    let mut at: usize = 0;
    while at < pool.len() && !hits(label_pattern, pool[at].text.as_str())
        invariant
            at <= pool.len(),
            frags == fragments_of_refs(pool@),
            forall|j: int| 0 <= j < at ==> !matching(label_pattern@)(#[trigger] frags[j]),
        decreases pool.len() - at,
    {
        at += 1;
    }
    proof {
        lemma_first_index(frags, matching(label_pattern@), at as int);
    }
    field_value_at(pool.as_slice(), at)
}

/// Reads the block of one party into the record. `header_char` is the glyph
/// that heads the block; `is_seller_info` says whether the block describes
/// the seller or the buyer. The extent of the block depends on the type that
/// the record carries. Without the heading glyph or a closing glyph the
/// record stays as it is.
pub fn extract_party_info(
    text_items: &[TextItem],
    invoice: &mut Invoice,
    header_char: &str,
    is_seller_info: bool,
)
    ensures
        final(invoice)@ == with_party(
            old(invoice)@,
            fragments(text_items@),
            header_char@,
            is_seller_info,
        ),
{
    let head = find_text(text_items, header_char);
    if head >= text_items.len() {
        return ;
    }
    let header: &TextItem = &text_items[head];
    let foot = find_block_footer(text_items, header);
    if foot >= text_items.len() {
        return ;
    }
    let footer: &TextItem = &text_items[foot];
    let pool = collect_block(text_items, header, footer, invoice.invoice_type.as_str());
    let party = InvoiceParty {
        name: get_field_value(&pool, PARTY_NAME_PATTERN),
        tax_code: get_field_value(&pool, PARTY_TAX_CODE_PATTERN),
        address_phone: get_field_value(&pool, PARTY_ADDRESS_PATTERN),
        bank_account: get_field_value(&pool, PARTY_BANK_PATTERN),
    };
    if is_seller_info {
        invoice.seller = party;
    } else {
        invoice.buyer = party;
    }
}

} // verus!
