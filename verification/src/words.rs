//! The printed words the engine looks for on a page, and the words it writes
//! into a record.

use vstd::prelude::*;

verus! {

/// Pattern of the title fragment of an electronic invoice.
pub const TITLE_PATTERN: &'static str = r"电[⼦子]\S*";

/// A title that holds this word belongs to a VAT invoice.
pub const VAT_KEYWORD: &'static str = "增值";

/// Label pattern of the invoice code.
pub const CODE_PATTERN: &'static str = r"发票代码[:：]?";

/// Label pattern of the invoice number.
pub const NUMBER_PATTERN: &'static str = r"发票号码[:：]?";

/// Label pattern of the date of issue.
pub const DATE_PATTERN: &'static str = r"开票日期[:：]?";

/// Label pattern of the checksum.
pub const CHECKSUM_PATTERN: &'static str = r"^校验码[:：]|^码[:：]";

/// Label pattern of the drawer.
pub const DRAWER_PATTERN: &'static str = r"^开票.{0,1}[:：]$";

/// Label pattern of the payee.
pub const PAYEE_PATTERN: &'static str = r"^收款.{0,1}[:：]$";

/// Label pattern of the person who checked the invoice.
pub const REVIEWER_PATTERN: &'static str = r"^复核.{0,1}[:：]$";

/// Label pattern of a party's name.
pub const PARTY_NAME_PATTERN: &'static str = r"称[:：]?$";

/// Label pattern of a party's taxpayer number.
pub const PARTY_TAX_CODE_PATTERN: &'static str = r"识别号[:：]?$";

/// Label pattern of a party's address and telephone.
pub const PARTY_ADDRESS_PATTERN: &'static str = r"电话[:：]?$";

/// Label pattern of a party's bank and account.
pub const PARTY_BANK_PATTERN: &'static str = r"开户行及账号[:：]?$";

/// Label pattern of the total in figures.
pub const IN_FIGURES_PATTERN: &'static str = r"[（(]?小写[)）]?";

/// Format of a quantity cell: digits only.
pub const QUANTITY_FORMAT: &'static str = r"^\d+$";

/// Format of a money cell of the table: an optional currency sign, an
/// optional minus, then digits and points.
pub const MONEY_FORMAT: &'static str = r"^[¥￥]?-?[\d.]+$";

/// Format of a printed amount in the totals row: an optional currency sign
/// and a decimal number.
pub const AMOUNT_FORMAT: &'static str = r"^[¥￥]?\d+(\.\d+)?$";

/// Format of a bare decimal number.
pub const NUMBER_FORMAT: &'static str = r"^\d+(\.\d+)?$";

/// The glyph that heads the buyer's block.
pub const BUYER_HEADER: &'static str = "购";

/// The glyph that heads the seller's block.
pub const SELLER_HEADER: &'static str = "销";

/// The glyph that closes a party block.
pub const BLOCK_END: &'static str = "息";

/// The glyph that closes a party block where `BLOCK_END` is missing.
pub const BLOCK_END_SHORT: &'static str = "方";

/// `BLOCK_END_SHORT` as some renderers emit it.
pub const BLOCK_END_SHORT_ALT: &'static str = "⽅";

/// The glyph that heads the remark block.
pub const REMARK_HEADER: &'static str = "备";

/// A word of the table's header row.
pub const GOODS_WORD: &'static str = "货物";

/// Another word of the table's header row.
pub const PROJECT_WORD: &'static str = "项目";

/// The word that starts the totals row.
pub const TOTAL_WORD: &'static str = "合计";

/// The first glyph of `TOTAL_WORD`, where the renderer split the word.
pub const TOTAL_FIRST_GLYPH: &'static str = "合";

/// The second glyph of `TOTAL_WORD`, where the renderer split the word.
pub const TOTAL_SECOND_GLYPH: &'static str = "计";

/// A currency sign that stands alone in a fragment.
pub const YUAN_SIGN: &'static str = "¥";

/// The full-width form of `YUAN_SIGN`.
pub const YUAN_SIGN_WIDE: &'static str = "￥";

/// Type of an invoice whose title names the value-added tax.
pub const INVOICE_TYPE_VAT: &'static str = "VAT e-invoice";

/// Type of every other invoice with a title.
pub const INVOICE_TYPE_GENERAL: &'static str = "general invoice";

/// Title of a page on which no title was found.
pub const GENERIC_TITLE: &'static str = "invoice";

/// What precedes the page number in the title of a later page.
pub const TITLE_PAGE_OPEN: &'static str = " (page ";

/// What follows the page number in the title of a later page.
pub const TITLE_PAGE_CLOSE: &'static str = ")";

/// What precedes the page number in the file name of a later page.
pub const FILENAME_PAGE_OPEN: &'static str = "#第";

/// What follows the page number in the file name of a later page.
pub const FILENAME_PAGE_CLOSE: &'static str = "页";

/// Status of a record that was parsed and awaits tallying.
pub const STATUS_PENDING: &'static str = "待统计";

/// Status of a record that counts toward the sums.
pub const STATUS_NORMAL: &'static str = "normal";

/// Status of a record that repeats another one.
pub const STATUS_DUPLICATE: &'static str = "duplicate";

/// Status of a record whose page could not be parsed.
pub const STATUS_FAILED: &'static str = "parse failed";

/// Remark of a page without fragments.
pub const REMARK_NO_TEXT: &'static str = "该页没有可识别的文本";

/// Remark of a page on which the engine could not run.
pub const REMARK_FAULT: &'static str = "发票解析过程中出现错误";

/// Remark of the single record of a batch without pages.
pub const REMARK_NO_INVOICE: &'static str = "未能识别任何发票信息";

/// Name of the item that stands in where no table header was found.
pub const UNRECOGNIZED: &'static str = "unrecognized";

/// Name of the item that stands in where the table held no row.
pub const UNRECOGNIZED_ITEM: &'static str = "unrecognized item";

/// Every numeric field of a stand-in item.
pub const ZERO: &'static str = "0";

/// The amount a fresh record starts with.
pub const ZERO_AMOUNT: &'static str = "0.00";

/// Name of the direction toward greater `x`.
pub const RIGHT: &'static str = "right";

/// Name of the direction toward smaller `x`.
pub const LEFT: &'static str = "left";

/// Name of the direction toward greater `y`.
pub const UP: &'static str = "up";

/// Name of the direction toward smaller `y`.
pub const DOWN: &'static str = "down";

/// Name of the search along the landmark's line, to both sides.
pub const SAME_LINE: &'static str = "same-line";

} // verus!
