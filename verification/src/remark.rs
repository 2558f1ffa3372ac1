//! Reading the remark block.

use crate::geometry::UNIT;
use crate::model::{fragments, Fragment, Invoice, InvoiceView, TextItem};
use crate::party::{find_text, has_text};
use crate::scan::{first_index, lemma_select_step, select};
use crate::text::{append_chars, chars_of, string_of};
use crate::words::REMARK_HEADER;
use vstd::prelude::*;

verus! {

/// How far above the heading glyph the remark may start.
pub const REMARK_ABOVE: i64 = 14 * UNIT;

/// How far below the heading glyph the remark may start.
pub const REMARK_BELOW: i64 = 33 * UNIT;

/// Accepts the fragments that start at or behind the right edge of `header`
/// and no more than `REMARK_ABOVE` above or `REMARK_BELOW` below it.
pub open spec fn in_remark_area(header: Fragment) -> spec_fn(Fragment) -> bool {
    |f: Fragment|
        f.x >= header.x + header.width && header.y - REMARK_ABOVE <= f.y <= header.y
            + REMARK_BELOW
}

/// The texts of the fragments written one after another, with a line break
/// wherever a fragment starts at another height than the one before it.
pub open spec fn remark_lines(area: Seq<Fragment>) -> Seq<char>
    decreases area.len(),
{
    if area.len() == 0 {
        Seq::empty()
    } else {
        let before = remark_lines(area.drop_last());
        if area.len() > 1 && area[area.len() - 2].y != area.last().y {
            before.push('\n') + area.last().text
        } else {
            before + area.last().text
        }
    }
}

/// The record after the remark block has been read: with the heading glyph
/// on the page the remark is the text of the block, without it nothing
/// changes.
pub open spec fn with_remark(invoice: InvoiceView, frags: Seq<Fragment>) -> InvoiceView {
    let head = first_index(frags, has_text(REMARK_HEADER@));
    if head >= frags.len() {
        invoice
    } else {
        InvoiceView {
            remark: remark_lines(select(frags, in_remark_area(frags[head]))),
            ..invoice
        }
    }
}

/// Reads the remark block into the record. The block lies to the right of
/// the first item whose text is the heading glyph. Without that item the
/// record stays as it is.
pub fn extract_remark_info(text_items: &[TextItem], invoice: &mut Invoice)
    ensures
        final(invoice)@ == with_remark(old(invoice)@, fragments(text_items@)),
{
    let ghost frags = fragments(text_items@);
    let head = find_text(text_items, REMARK_HEADER);
    if head >= text_items.len() {
        return ;
    }
    let header: &TextItem = &text_items[head];
    let ghost want = in_remark_area(header@);
    let left: i128 = header.x as i128 + header.width as i128;
    let top: i128 = header.y as i128 - REMARK_ABOVE as i128;
    let bottom: i128 = header.y as i128 + REMARK_BELOW as i128;
    let mut result: Vec<char> = Vec::new();
    let mut above: Option<i64> = None;
    let mut i: usize = 0;
    assert(select(frags.take(0), want) =~= Seq::empty());
    while i < text_items.len()
        invariant
            i <= text_items.len(),
            frags == fragments(text_items@),
            want == in_remark_area(header@),
            left == header@.x + header@.width,
            top == header@.y - REMARK_ABOVE,
            bottom == header@.y + REMARK_BELOW,
            result@ == remark_lines(select(frags.take(i as int), want)),
            match above {
                Some(y) => select(frags.take(i as int), want).len() > 0 && select(
                    frags.take(i as int),
                    want,
                ).last().y == y,
                None => select(frags.take(i as int), want).len() == 0,
            },
        decreases text_items.len() - i,
    {
        let item: &TextItem = &text_items[i];
        proof {
            lemma_select_step(frags, want, i as int);
        }
        if item.x as i128 >= left && item.y as i128 >= top && item.y as i128 <= bottom {
            let ghost before = select(frags.take(i as int), want);
            let ghost after = before.push(frags[i as int]);
            assert(after.drop_last() =~= before);
            match above {
                Some(y) => {
                    if y != item.y {
                        result.push('\n');
                    }
                },
                None => {},
            }
            let chars = chars_of(item.text.as_str());
            append_chars(&mut result, &chars);
            above = Some(item.y);
        }
        i += 1;
    }
    assert(frags.take(text_items.len() as int) == frags);
    invoice.remark = string_of(&result);
}

} // verus!
