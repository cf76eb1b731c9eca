//! The output formats of the query commands and the short form of a
//! transaction hash.

use vstd::prelude::*;
use vstd::std_specs::convert::FromSpecImpl;
use vstd::string::{StringExecFns, StringSliceAdditionalSpecFns};
use vstd::utf8::{decode_utf8, encode_utf8, is_ascii_chars, is_char_boundary};
use crate::decimal::{decimal_text, to_decimal_string, u64_to_string, usize_to_string};
use crate::primitives::{Address, B256};
use crate::query::render::{
    address_short_text, csv_text, field_model, format_units, grid, json_compact_text, json_pretty_text,
    object_model, objects_model, render_csv, render_json_compact, render_json_pretty,
    render_json_pretty_object, render_table,
    short_address, table_text, texts, units_text, JsonField,
};
use crate::repository::models::Transfer;
use crate::repository::transfer_repository::{BalanceInfo, TokenHolder, TransferStats};
use crate::text::{hex_digits, hex_text, lemma_hex_digits, to_hex_text};
use crate::uint::U256;

verus! {

/// How a query command writes its answer.
#[derive(Clone, Copy, Debug, PartialEq, Eq, Structural)]
pub enum OutputFormat {
    Table,
    Json,
    Csv,
}

/// The lower-case form of a text.
pub uninterp spec fn lowercase_of(text: Seq<char>) -> Seq<char>;

/// The text with each of the letters `A` to `Z` replaced by its small form.
pub open spec fn ascii_lowercase(text: Seq<char>) -> Seq<char> {
    text.map_values(
        |c: char|
            if 'A' <= c && c <= 'Z' {
                ((c as u8) + 32) as char
            } else {
                c
            },
    )
}

/// The lower-case form of a text as the contracts use it: for a text of
/// ASCII characters its letters made small, for any other text what the
/// standard library returns.
pub open spec fn lowercase_text(text: Seq<char>) -> Seq<char> {
    if is_ascii_chars(text) {
        ascii_lowercase(text)
    } else {
        lowercase_of(text)
    }
}

/// Calls `str::to_lowercase` of the standard library. The contract says
/// that in a text of ASCII characters the letters `A` to `Z` become small
/// and nothing else changes, and names what comes back for any other text.
#[verifier::external_body]
fn to_lowercase(text: &str) -> (r: String)
    ensures
        r@ == (if is_ascii_chars(text@) {
            ascii_lowercase(text@)
        } else {
            lowercase_of(text@)
        }),
{
    text.to_lowercase()
}

/// The format that a lower-case name selects: `json`, `csv`, or the table
/// for any other name.
pub open spec fn format_named(lowercase: Seq<char>) -> OutputFormat {
    if lowercase == "json"@ {
        OutputFormat::Json
    } else if lowercase == "csv"@ {
        OutputFormat::Csv
    } else {
        OutputFormat::Table
    }
}

/// The format that a lower-case name selects.
pub fn format_from_lowercase(name: &str) -> (r: OutputFormat)
    ensures
        r == format_named(name@),
{
    let json = "json".to_owned();
    let csv = "csv".to_owned();
    let given = name.to_owned();
    if given == json {
        OutputFormat::Json
    } else if given == csv {
        OutputFormat::Csv
    } else {
        OutputFormat::Table
    }
}

impl From<&str> for OutputFormat {
    fn from(s: &str) -> (r: OutputFormat) {
        let lower = to_lowercase(s);
        format_from_lowercase(lower.as_str())
    }
}

impl FromSpecImpl<&str> for OutputFormat {
    open spec fn obeys_from_spec() -> bool {
        true
    }

    open spec fn from_spec(s: &str) -> OutputFormat {
        format_named(lowercase_text(s@))
    }
}

/// The short form of a transaction hash: its first six bytes of text, three
/// dots, its last four bytes of text.
pub fn format_tx_hash(hash: &str) -> (r: String)
    requires
        hash.spec_bytes().len() >= 6,
        is_char_boundary(hash.spec_bytes(), 6),
        is_char_boundary(hash.spec_bytes(), hash.spec_bytes().len() - 4),
    ensures
        r@ == decode_utf8(hash.spec_bytes().subrange(0, 6)) + "..."@ + decode_utf8(
            hash.spec_bytes().subrange(hash.spec_bytes().len() - 4, hash.spec_bytes().len() as int),
        ),
{
    let n = hash.as_bytes().len();
    let (head, _) = hash.split_at(6);
    let (_, tail) = hash.split_at(n - 4);
    proof {
        vstd::utf8::encode_utf8_decode_utf8(head@);
        vstd::utf8::encode_utf8_decode_utf8(tail@);
    }
    let mut out = head.to_owned();
    out.append("...");
    out.append(tail);
    out
}

/// The decimals of a token where the store does not tell them.
pub const DEFAULT_DECIMALS: u8 = 18;

/// The decimals to format amounts with.
pub open spec fn decimals_or_default(decimals: Option<u8>) -> u8 {
    match decimals {
        Some(d) => d,
        None => DEFAULT_DECIMALS,
    }
}

/// An amount in units where there is such a unit, else in decimal.
pub open spec fn amount_text(value: nat, decimals: u8) -> Seq<char> {
    match units_text(value, decimals) {
        Some(text) => text,
        None => decimal_text(value),
    }
}

/// The short form of the hexadecimal text of a hash: `0x` and four digits,
/// three dots, the last four digits.
pub open spec fn short_hash_text(bytes: Seq<u8>) -> Seq<char> {
    hex_text(bytes).subrange(0, 6) + "..."@ + hex_text(bytes).subrange(
        hex_text(bytes).len() - 4,
        hex_text(bytes).len() as int,
    )
}

/// A decimal number, or `N/A` where there is none.
pub open spec fn optional_number_text(n: Option<u64>) -> Seq<char> {
    match n {
        Some(b) => decimal_text(b as nat),
        None => "N/A"@,
    }
}

/// In a text of ASCII characters every place is a character boundary of the
/// bytes, and the bytes of a part decode to that part.
pub proof fn lemma_ascii_parts(text: Seq<char>, from: int, to: int)
    requires
        is_ascii_chars(text),
        0 <= from <= to <= text.len(),
    ensures
        encode_utf8(text).len() == text.len(),
        is_char_boundary(encode_utf8(text), from),
        is_char_boundary(encode_utf8(text), to),
        decode_utf8(encode_utf8(text).subrange(from, to)) == text.subrange(from, to),
{
    let bytes = encode_utf8(text);
    vstd::utf8::is_ascii_chars_encode_utf8(text);
    vstd::utf8::encode_utf8_valid_utf8(text);
    vstd::utf8::is_char_boundary_start_end_of_seq(bytes);
    if from < bytes.len() {
        vstd::utf8::is_char_boundary_iff_not_is_continuation_byte(bytes, from);
        assert(bytes[from] == text[from] as u8);
    }
    if to < bytes.len() {
        vstd::utf8::is_char_boundary_iff_not_is_continuation_byte(bytes, to);
        assert(bytes[to] == text[to] as u8);
    }
    let part = text.subrange(from, to);
    assert(is_ascii_chars(part)) by {
        assert forall|i: int| 0 <= i < part.len() implies '\0' <= #[trigger] part[i] <= '\u{7f}' by {
            assert(part[i] == text[from + i]);
        }
    }
    vstd::utf8::is_ascii_chars_encode_utf8(part);
    assert(encode_utf8(part) =~= bytes.subrange(from, to)) by {
        assert forall|i: int| 0 <= i < part.len() implies encode_utf8(part)[i] == bytes.subrange(
            from,
            to,
        )[i] by {
            assert(part[i] == text[from + i]);
            assert(encode_utf8(part)[i] == part[i] as u8);
            assert(bytes[from + i] == text[from + i] as u8);
        }
    }
    vstd::utf8::encode_utf8_decode_utf8(part);
}

/// The hexadecimal text of bytes holds ASCII characters only.
pub proof fn lemma_hex_text_ascii(bytes: Seq<u8>)
    ensures
        is_ascii_chars(hex_text(bytes)),
        hex_text(bytes).len() == 2 + 2 * bytes.len(),
{
    lemma_hex_digits(bytes);
    let t = hex_text(bytes);
    assert forall|i: int| 0 <= i < t.len() implies '\0' <= #[trigger] t[i] <= '\u{7f}' by {
        if i >= 2 {
            assert(t[i] == hex_digits(bytes)[i - 2]);
        }
    }
}

/// The short form of a hash.
pub fn short_hash(hash: &B256) -> (r: String)
    ensures
        r@ == short_hash_text(hash.bytes@),
{
    let text = to_hex_text(hash.bytes.as_slice());
    proof {
        lemma_hex_text_ascii(hash.bytes@);
        lemma_ascii_parts(text@, 0, 6);
        lemma_ascii_parts(text@, text@.len() - 4, text@.len() as int);
    }
    format_tx_hash(text.as_str())
}

/// An amount in units, or in decimal where there is no such unit.
pub fn amount_string(value: &U256, decimals: u8) -> (r: String)
    ensures
        r@ == amount_text(value@, decimals),
{
    match format_units(value, decimals) {
        Some(text) => text,
        None => to_decimal_string(value),
    }
}

/// A decimal number, or `N/A`.
pub fn optional_number_string(n: Option<u64>) -> (r: String)
    ensures
        r@ == optional_number_text(n),
{
    match n {
        Some(b) => u64_to_string(b),
        None => "N/A".to_owned(),
    }
}

fn cells2(a: String, b: String) -> (r: Vec<String>)
    ensures
        texts(r@) == seq![a@, b@],
{
    let mut r: Vec<String> = Vec::new();
    r.push(a);
    r.push(b);
    assert(texts(r@) =~= seq![a@, b@]);
    r
}

fn cells3(a: String, b: String, c: String) -> (r: Vec<String>)
    ensures
        texts(r@) == seq![a@, b@, c@],
{
    let mut r: Vec<String> = Vec::new();
    r.push(a);
    r.push(b);
    r.push(c);
    assert(texts(r@) =~= seq![a@, b@, c@]);
    r
}

fn cells4(a: String, b: String, c: String, d: String) -> (r: Vec<String>)
    ensures
        texts(r@) == seq![a@, b@, c@, d@],
{
    let mut r: Vec<String> = Vec::new();
    r.push(a);
    r.push(b);
    r.push(c);
    r.push(d);
    assert(texts(r@) =~= seq![a@, b@, c@, d@]);
    r
}

fn cells6(a: String, b: String, c: String, d: String, e: String, f: String) -> (r: Vec<String>)
    ensures
        texts(r@) == seq![a@, b@, c@, d@, e@, f@],
{
    let mut r: Vec<String> = Vec::new();
    r.push(a);
    r.push(b);
    r.push(c);
    r.push(d);
    r.push(e);
    r.push(f);
    assert(texts(r@) =~= seq![a@, b@, c@, d@, e@, f@]);
    r
}

fn cells7(a: String, b: String, c: String, d: String, e: String, f: String, g: String) -> (r: Vec<String>)
    ensures
        texts(r@) == seq![a@, b@, c@, d@, e@, f@, g@],
{
    let mut r: Vec<String> = Vec::new();
    r.push(a);
    r.push(b);
    r.push(c);
    r.push(d);
    r.push(e);
    r.push(f);
    r.push(g);
    assert(texts(r@) =~= seq![a@, b@, c@, d@, e@, f@, g@]);
    r
}

fn text_field(key: &str, value: String) -> (r: (String, JsonField))
    ensures
        r.0@ == key@,
        field_model(r.1) == Some(Err::<u64, Seq<char>>(value@)),
{
    (key.to_owned(), JsonField::Text(value))
}

fn number_field(key: &str, value: u64) -> (r: (String, JsonField))
    ensures
        r.0@ == key@,
        field_model(r.1) == Some(Ok::<u64, Seq<char>>(value)),
{
    (key.to_owned(), JsonField::Number(value))
}

fn optional_number_field(key: &str, value: Option<u64>) -> (r: (String, JsonField))
    ensures
        r.0@ == key@,
        field_model(r.1) == (match value {
            Some(n) => Some(Ok::<u64, Seq<char>>(n)),
            None => None,
        }),
{
    match value {
        Some(n) => (key.to_owned(), JsonField::Number(n)),
        None => (key.to_owned(), JsonField::Null),
    }
}

/// The header of the table of transfers.
pub open spec fn transfers_table_header() -> Seq<Seq<char>> {
    seq!["Block"@, "From"@, "To"@, "Value"@, "Value (Wei)"@, "Tx Hash"@]
}

/// The row of one transfer in the table.
pub open spec fn transfer_table_row(t: Transfer, decimals: u8) -> Seq<Seq<char>> {
    seq![
        decimal_text(t.block_number as nat),
        address_short_text(t.from_address.bytes@),
        address_short_text(t.to_address.bytes@),
        amount_text(t.value@, decimals),
        decimal_text(t.value@),
        short_hash_text(t.transaction_hash.bytes@),
    ]
}

/// The JSON object of one transfer.
pub open spec fn transfer_json(t: Transfer, decimals: u8) -> Seq<(Seq<char>, Option<Result<u64, Seq<char>>>)> {
    seq![
        ("block_number"@, Some(Ok(t.block_number))),
        ("transaction_hash"@, Some(Err(hex_text(t.transaction_hash.bytes@)))),
        ("log_index"@, Some(Ok(t.log_index))),
        ("from"@, Some(Err(hex_text(t.from_address.bytes@)))),
        ("to"@, Some(Err(hex_text(t.to_address.bytes@)))),
        ("value"@, Some(Err(amount_text(t.value@, decimals)))),
        ("value_wei"@, Some(Err(decimal_text(t.value@)))),
    ]
}

/// The first record of the comma-separated transfers.
pub open spec fn transfers_csv_header() -> Seq<Seq<char>> {
    seq![
        "block_number"@,
        "from"@,
        "to"@,
        "value"@,
        "value_wei"@,
        "transaction_hash"@,
        "log_index"@,
    ]
}

/// The record of one transfer.
pub open spec fn transfer_csv_row(t: Transfer, decimals: u8) -> Seq<Seq<char>> {
    seq![
        decimal_text(t.block_number as nat),
        hex_text(t.from_address.bytes@),
        hex_text(t.to_address.bytes@),
        amount_text(t.value@, decimals),
        decimal_text(t.value@),
        hex_text(t.transaction_hash.bytes@),
        decimal_text(t.log_index as nat),
    ]
}

/// What `format_transfers` writes.
pub open spec fn transfers_output(ts: Seq<Transfer>, decimals: Option<u8>, format: OutputFormat) -> Seq<char> {
    let d = decimals_or_default(decimals);
    match format {
        OutputFormat::Table => if ts.len() == 0 {
            "No transfers found."@
        } else {
            table_text(transfers_table_header(), Seq::new(ts.len(), |i: int| transfer_table_row(ts[i], d)))
        },
        OutputFormat::Json => json_pretty_text(Seq::new(ts.len(), |i: int| transfer_json(ts[i], d)), true),
        OutputFormat::Csv => csv_text(
            seq![transfers_csv_header()] + Seq::new(ts.len(), |i: int| transfer_csv_row(ts[i], d)),
        ),
    }
}

/// Writes a list of transfers in the given format.
pub fn format_transfers(transfers: &Vec<Transfer>, decimals: Option<u8>, format: &OutputFormat) -> (r: String)
    ensures
        r@ == transfers_output(transfers@, decimals, *format),
{
    match format {
        OutputFormat::Table => format_transfers_table(transfers, decimals),
        OutputFormat::Json => format_transfers_json(transfers, decimals),
        OutputFormat::Csv => format_transfers_csv(transfers, decimals),
    }
}

fn format_transfers_table(transfers: &Vec<Transfer>, decimals: Option<u8>) -> (r: String)
    ensures
        r@ == transfers_output(transfers@, decimals, OutputFormat::Table),
{
    if transfers.len() == 0 {
        return "No transfers found.".to_owned();
    }
    let d = match decimals {
        Some(d) => d,
        None => DEFAULT_DECIMALS,
    };
    let header = cells6(
        "Block".to_owned(),
        "From".to_owned(),
        "To".to_owned(),
        "Value".to_owned(),
        "Value (Wei)".to_owned(),
        "Tx Hash".to_owned(),
    );
    let mut rows: Vec<Vec<String>> = Vec::new();
    let mut i: usize = 0;
    while i < transfers.len()
        invariant
            i <= transfers.len(),
            rows@.len() == i,
            forall|k: int| 0 <= k < i ==> texts((#[trigger] rows@[k])@) == transfer_table_row(transfers@[k], d),
        decreases transfers.len() - i,
    {
        let t = &transfers[i];
        rows.push(
            cells6(
                u64_to_string(t.block_number),
                short_address(&t.from_address),
                short_address(&t.to_address),
                amount_string(&t.value, d),
                to_decimal_string(&t.value),
                short_hash(&t.transaction_hash),
            ),
        );
        i += 1;
    }
    assert(grid(rows@) =~= Seq::new(transfers@.len(), |i: int| transfer_table_row(transfers@[i], d)));
    render_table(&header, &rows)
}

fn format_transfers_json(transfers: &Vec<Transfer>, decimals: Option<u8>) -> (r: String)
    ensures
        r@ == transfers_output(transfers@, decimals, OutputFormat::Json),
{
    let d = match decimals {
        Some(d) => d,
        None => DEFAULT_DECIMALS,
    };
    let mut items: Vec<Vec<(String, JsonField)>> = Vec::new();
    let mut i: usize = 0;
    while i < transfers.len()
        invariant
            i <= transfers.len(),
            items@.len() == i,
            forall|k: int| 0 <= k < i ==> object_model((#[trigger] items@[k])@) == transfer_json(transfers@[k], d),
        decreases transfers.len() - i,
    {
        let t = &transfers[i];
        let mut object: Vec<(String, JsonField)> = Vec::new();
        object.push(number_field("block_number", t.block_number));
        object.push(text_field("transaction_hash", to_hex_text(t.transaction_hash.bytes.as_slice())));
        object.push(number_field("log_index", t.log_index));
        object.push(text_field("from", to_hex_text(t.from_address.bytes.as_slice())));
        object.push(text_field("to", to_hex_text(t.to_address.bytes.as_slice())));
        object.push(text_field("value", amount_string(&t.value, d)));
        object.push(text_field("value_wei", to_decimal_string(&t.value)));
        assert(object_model(object@) =~= transfer_json(transfers@[i as int], d));
        items.push(object);
        i += 1;
    }
    assert(objects_model(items@) =~= Seq::new(transfers@.len(), |i: int| transfer_json(transfers@[i], d)));
    render_json_pretty(&items)
}

fn format_transfers_csv(transfers: &Vec<Transfer>, decimals: Option<u8>) -> (r: String)
    ensures
        r@ == transfers_output(transfers@, decimals, OutputFormat::Csv),
{
    let d = match decimals {
        Some(d) => d,
        None => DEFAULT_DECIMALS,
    };
    let mut records: Vec<Vec<String>> = Vec::new();
    records.push(
        cells7(
            "block_number".to_owned(),
            "from".to_owned(),
            "to".to_owned(),
            "value".to_owned(),
            "value_wei".to_owned(),
            "transaction_hash".to_owned(),
            "log_index".to_owned(),
        ),
    );
    let mut i: usize = 0;
    while i < transfers.len()
        invariant
            i <= transfers.len(),
            records@.len() == i + 1,
            texts(records@[0]@) == transfers_csv_header(),
            forall|k: int| 0 <= k < i ==> texts((#[trigger] records@[k + 1])@) == transfer_csv_row(transfers@[k], d),
        decreases transfers.len() - i,
    {
        let t = &transfers[i];
        records.push(
            cells7(
                u64_to_string(t.block_number),
                to_hex_text(t.from_address.bytes.as_slice()),
                to_hex_text(t.to_address.bytes.as_slice()),
                amount_string(&t.value, d),
                to_decimal_string(&t.value),
                to_hex_text(t.transaction_hash.bytes.as_slice()),
                u64_to_string(t.log_index),
            ),
        );
        i += 1;
    }
    assert(grid(records@) =~= seq![transfers_csv_header()] + Seq::new(
        transfers@.len(),
        |i: int| transfer_csv_row(transfers@[i], d),
    )) by {
        let want = seq![transfers_csv_header()] + Seq::new(
            transfers@.len(),
            |i: int| transfer_csv_row(transfers@[i], d),
        );
        assert(grid(records@).len() == want.len());
        assert forall|k: int| 0 <= k < want.len() implies grid(records@)[k] == want[k] by {
            if k > 0 {
                assert(texts(records@[(k - 1) + 1]@) == transfer_csv_row(transfers@[k - 1], d));
            }
        }
    }
    render_csv(&records)
}

/// The rows of a balance: the balance, what came in and what went out, each
/// with a label, in units and in decimal.
pub open spec fn balance_rows(info: BalanceInfo, decimals: u8, labels: Seq<Seq<char>>) -> Seq<Seq<Seq<char>>> {
    seq![
        seq![labels[0], amount_text(info.balance@, decimals), decimal_text(info.balance@)],
        seq![labels[1], amount_text(info.total_incoming@, decimals), decimal_text(info.total_incoming@)],
        seq![labels[2], amount_text(info.total_outgoing@, decimals), decimal_text(info.total_outgoing@)],
    ]
}

/// The JSON object of a balance.
pub open spec fn balance_json(info: BalanceInfo, decimals: u8) -> Seq<(Seq<char>, Option<Result<u64, Seq<char>>>)> {
    seq![
        ("balance"@, Some(Err(amount_text(info.balance@, decimals)))),
        ("balance_wei"@, Some(Err(decimal_text(info.balance@)))),
        ("total_incoming"@, Some(Err(amount_text(info.total_incoming@, decimals)))),
        ("total_incoming_wei"@, Some(Err(decimal_text(info.total_incoming@)))),
        ("total_outgoing"@, Some(Err(amount_text(info.total_outgoing@, decimals)))),
        ("total_outgoing_wei"@, Some(Err(decimal_text(info.total_outgoing@)))),
    ]
}

/// What `format_balance` writes.
pub open spec fn balance_output(info: BalanceInfo, decimals: Option<u8>, format: OutputFormat) -> Seq<char> {
    let d = decimals_or_default(decimals);
    match format {
        OutputFormat::Table => table_text(
            seq!["Metric"@, "Value (Formatted)"@, "Value (Wei)"@],
            balance_rows(info, d, seq!["Balance"@, "Total Incoming"@, "Total Outgoing"@]),
        ),
        OutputFormat::Json => json_compact_text(balance_json(info, d)),
        OutputFormat::Csv => csv_text(
            seq![seq!["metric"@, "value_formatted"@, "value_wei"@]] + balance_rows(
                info,
                d,
                seq!["balance"@, "total_incoming"@, "total_outgoing"@],
            ),
        ),
    }
}

/// Writes the balance of an address in the given format.
pub fn format_balance(balance_info: BalanceInfo, decimals: Option<u8>, format: &OutputFormat) -> (r: String)
    ensures
        r@ == balance_output(balance_info, decimals, *format),
{
    let d = match decimals {
        Some(d) => d,
        None => DEFAULT_DECIMALS,
    };
    let balance_formatted = amount_string(&balance_info.balance, d);
    let incoming_formatted = amount_string(&balance_info.total_incoming, d);
    let outgoing_formatted = amount_string(&balance_info.total_outgoing, d);
    let balance_wei = to_decimal_string(&balance_info.balance);
    let incoming_wei = to_decimal_string(&balance_info.total_incoming);
    let outgoing_wei = to_decimal_string(&balance_info.total_outgoing);
    match format {
        OutputFormat::Table => {
            let header = cells3("Metric".to_owned(), "Value (Formatted)".to_owned(), "Value (Wei)".to_owned());
            let mut rows: Vec<Vec<String>> = Vec::new();
            rows.push(cells3("Balance".to_owned(), balance_formatted, balance_wei));
            rows.push(cells3("Total Incoming".to_owned(), incoming_formatted, incoming_wei));
            rows.push(cells3("Total Outgoing".to_owned(), outgoing_formatted, outgoing_wei));
            assert(grid(rows@) =~= balance_rows(
                balance_info,
                d,
                seq!["Balance"@, "Total Incoming"@, "Total Outgoing"@],
            ));
            render_table(&header, &rows)
        },
        OutputFormat::Json => {
            let mut object: Vec<(String, JsonField)> = Vec::new();
            object.push(text_field("balance", balance_formatted));
            object.push(text_field("balance_wei", balance_wei));
            object.push(text_field("total_incoming", incoming_formatted));
            object.push(text_field("total_incoming_wei", incoming_wei));
            object.push(text_field("total_outgoing", outgoing_formatted));
            object.push(text_field("total_outgoing_wei", outgoing_wei));
            assert(object_model(object@) =~= balance_json(balance_info, d));
            render_json_compact(&object)
        },
        OutputFormat::Csv => {
            let mut records: Vec<Vec<String>> = Vec::new();
            records.push(cells3("metric".to_owned(), "value_formatted".to_owned(), "value_wei".to_owned()));
            records.push(cells3("balance".to_owned(), balance_formatted, balance_wei));
            records.push(cells3("total_incoming".to_owned(), incoming_formatted, incoming_wei));
            records.push(cells3("total_outgoing".to_owned(), outgoing_formatted, outgoing_wei));
            assert(grid(records@) =~= seq![seq!["metric"@, "value_formatted"@, "value_wei"@]] + balance_rows(
                balance_info,
                d,
                seq!["balance"@, "total_incoming"@, "total_outgoing"@],
            ));
            render_csv(&records)
        },
    }
}

/// The row of the holder at place `i` in the table.
pub open spec fn holder_table_row(h: TokenHolder, i: int, decimals: u8) -> Seq<Seq<char>> {
    seq![
        decimal_text((i + 1) as nat),
        address_short_text(h.address.bytes@),
        amount_text(h.balance@, decimals),
        decimal_text(h.balance@),
    ]
}

/// The JSON object of the holder at place `i`.
pub open spec fn holder_json(h: TokenHolder, i: int, decimals: u8) -> Seq<(Seq<char>, Option<Result<u64, Seq<char>>>)> {
    seq![
        ("rank"@, Some(Ok((i + 1) as u64))),
        ("address"@, Some(Err(hex_text(h.address.bytes@)))),
        ("balance"@, Some(Err(amount_text(h.balance@, decimals)))),
        ("balance_wei"@, Some(Err(decimal_text(h.balance@)))),
    ]
}

/// The record of the holder at place `i`.
pub open spec fn holder_csv_row(h: TokenHolder, i: int, decimals: u8) -> Seq<Seq<char>> {
    seq![
        decimal_text((i + 1) as nat),
        hex_text(h.address.bytes@),
        amount_text(h.balance@, decimals),
        decimal_text(h.balance@),
    ]
}

/// What `format_top_holders` writes.
pub open spec fn holders_output(hs: Seq<TokenHolder>, decimals: Option<u8>, format: OutputFormat) -> Seq<char> {
    let d = decimals_or_default(decimals);
    match format {
        OutputFormat::Table => if hs.len() == 0 {
            "No holders found."@
        } else {
            table_text(
                seq!["Rank"@, "Address"@, "Balance"@, "Balance (Wei)"@],
                Seq::new(hs.len(), |i: int| holder_table_row(hs[i], i, d)),
            )
        },
        OutputFormat::Json => json_pretty_text(Seq::new(hs.len(), |i: int| holder_json(hs[i], i, d)), true),
        OutputFormat::Csv => csv_text(
            seq![seq!["rank"@, "address"@, "balance"@, "balance_wei"@]] + Seq::new(
                hs.len(),
                |i: int| holder_csv_row(hs[i], i, d),
            ),
        ),
    }
}

/// Writes a list of holders, ranked in their order, in the given format.
pub fn format_top_holders(holders: Vec<TokenHolder>, decimals: Option<u8>, format: &OutputFormat) -> (r: String)
    ensures
        r@ == holders_output(holders@, decimals, *format),
{
    match format {
        OutputFormat::Table => format_top_holders_table(&holders, decimals),
        OutputFormat::Json => format_top_holders_json(&holders, decimals),
        OutputFormat::Csv => format_top_holders_csv(&holders, decimals),
    }
}

fn format_top_holders_table(holders: &Vec<TokenHolder>, decimals: Option<u8>) -> (r: String)
    ensures
        r@ == holders_output(holders@, decimals, OutputFormat::Table),
{
    if holders.len() == 0 {
        return "No holders found.".to_owned();
    }
    let d = match decimals {
        Some(d) => d,
        None => DEFAULT_DECIMALS,
    };
    let header = cells4("Rank".to_owned(), "Address".to_owned(), "Balance".to_owned(), "Balance (Wei)".to_owned());
    let mut rows: Vec<Vec<String>> = Vec::new();
    let mut i: usize = 0;
    while i < holders.len()
        invariant
            i <= holders.len(),
            rows@.len() == i,
            forall|k: int| 0 <= k < i ==> texts((#[trigger] rows@[k])@) == holder_table_row(holders@[k], k, d),
        decreases holders.len() - i,
    {
        let h = &holders[i];
        rows.push(
            cells4(
                usize_to_string(i + 1),
                short_address(&h.address),
                amount_string(&h.balance, d),
                to_decimal_string(&h.balance),
            ),
        );
        i += 1;
    }
    assert(grid(rows@) =~= Seq::new(holders@.len(), |i: int| holder_table_row(holders@[i], i, d)));
    render_table(&header, &rows)
}

fn format_top_holders_json(holders: &Vec<TokenHolder>, decimals: Option<u8>) -> (r: String)
    ensures
        r@ == holders_output(holders@, decimals, OutputFormat::Json),
{
    let d = match decimals {
        Some(d) => d,
        None => DEFAULT_DECIMALS,
    };
    let mut items: Vec<Vec<(String, JsonField)>> = Vec::new();
    let mut i: usize = 0;
    while i < holders.len()
        invariant
            i <= holders.len(),
            items@.len() == i,
            forall|k: int| 0 <= k < i ==> object_model((#[trigger] items@[k])@) == holder_json(holders@[k], k, d),
        decreases holders.len() - i,
    {
        let h = &holders[i];
        let mut object: Vec<(String, JsonField)> = Vec::new();
        object.push(number_field("rank", (i + 1) as u64));
        object.push(text_field("address", to_hex_text(h.address.bytes.as_slice())));
        object.push(text_field("balance", amount_string(&h.balance, d)));
        object.push(text_field("balance_wei", to_decimal_string(&h.balance)));
        assert(object_model(object@) =~= holder_json(holders@[i as int], i as int, d));
        items.push(object);
        i += 1;
    }
    assert(objects_model(items@) =~= Seq::new(holders@.len(), |i: int| holder_json(holders@[i], i, d)));
    render_json_pretty(&items)
}

fn format_top_holders_csv(holders: &Vec<TokenHolder>, decimals: Option<u8>) -> (r: String)
    ensures
        r@ == holders_output(holders@, decimals, OutputFormat::Csv),
{
    let d = match decimals {
        Some(d) => d,
        None => DEFAULT_DECIMALS,
    };
    let mut records: Vec<Vec<String>> = Vec::new();
    records.push(cells4("rank".to_owned(), "address".to_owned(), "balance".to_owned(), "balance_wei".to_owned()));
    let mut i: usize = 0;
    while i < holders.len()
        invariant
            i <= holders.len(),
            records@.len() == i + 1,
            texts(records@[0]@) == seq!["rank"@, "address"@, "balance"@, "balance_wei"@],
            forall|k: int| 0 <= k < i ==> texts((#[trigger] records@[k + 1])@) == holder_csv_row(holders@[k], k, d),
        decreases holders.len() - i,
    {
        let h = &holders[i];
        records.push(
            cells4(
                usize_to_string(i + 1),
                to_hex_text(h.address.bytes.as_slice()),
                amount_string(&h.balance, d),
                to_decimal_string(&h.balance),
            ),
        );
        i += 1;
    }
    assert(grid(records@) =~= seq![seq!["rank"@, "address"@, "balance"@, "balance_wei"@]] + Seq::new(
        holders@.len(),
        |i: int| holder_csv_row(holders@[i], i, d),
    )) by {
        let want = seq![seq!["rank"@, "address"@, "balance"@, "balance_wei"@]] + Seq::new(
            holders@.len(),
            |i: int| holder_csv_row(holders@[i], i, d),
        );
        assert(grid(records@).len() == want.len());
        assert forall|k: int| 0 <= k < want.len() implies grid(records@)[k] == want[k] by {
            if k > 0 {
                assert(texts(records@[(k - 1) + 1]@) == holder_csv_row(holders@[k - 1], k - 1, d));
            }
        }
    }
    render_csv(&records)
}

/// The rows of the statistics, each under the given label.
pub open spec fn stats_rows(stats: TransferStats, labels: Seq<Seq<char>>) -> Seq<Seq<Seq<char>>> {
    seq![
        seq![labels[0], decimal_text(stats.total_transfers as nat)],
        seq![labels[1], decimal_text(stats.unique_addresses as nat)],
        seq![labels[2], optional_number_text(stats.earliest_block)],
        seq![labels[3], optional_number_text(stats.latest_block)],
    ]
}

/// The JSON object of the statistics.
pub open spec fn stats_json(stats: TransferStats) -> Seq<(Seq<char>, Option<Result<u64, Seq<char>>>)> {
    seq![
        ("total_transfers"@, Some(Ok(stats.total_transfers as u64))),
        ("unique_addresses"@, Some(Ok(stats.unique_addresses as u64))),
        ("earliest_block"@, match stats.earliest_block {
            Some(n) => Some(Ok(n)),
            None => None,
        }),
        ("latest_block"@, match stats.latest_block {
            Some(n) => Some(Ok(n)),
            None => None,
        }),
    ]
}

/// What `format_stats` writes.
pub open spec fn stats_output(stats: TransferStats, format: OutputFormat) -> Seq<char> {
    match format {
        OutputFormat::Table => table_text(
            seq!["Metric"@, "Value"@],
            stats_rows(
                stats,
                seq!["Total Transfers"@, "Unique Addresses"@, "Earliest Block"@, "Latest Block"@],
            ),
        ),
        OutputFormat::Json => json_pretty_text(seq![stats_json(stats)], false),
        OutputFormat::Csv => csv_text(
            seq![seq!["metric"@, "value"@]] + stats_rows(
                stats,
                seq!["total_transfers"@, "unique_addresses"@, "earliest_block"@, "latest_block"@],
            ),
        ),
    }
}

/// Writes the statistics of the table in the given format.
pub fn format_stats(stats: &TransferStats, format: &OutputFormat) -> (r: String)
    ensures
        r@ == stats_output(*stats, *format),
{
    match format {
        OutputFormat::Table => {
            let header = cells2("Metric".to_owned(), "Value".to_owned());
            let mut rows: Vec<Vec<String>> = Vec::new();
            rows.push(cells2("Total Transfers".to_owned(), usize_to_string(stats.total_transfers)));
            rows.push(cells2("Unique Addresses".to_owned(), usize_to_string(stats.unique_addresses)));
            rows.push(cells2("Earliest Block".to_owned(), optional_number_string(stats.earliest_block)));
            rows.push(cells2("Latest Block".to_owned(), optional_number_string(stats.latest_block)));
            assert(grid(rows@) =~= stats_rows(
                *stats,
                seq!["Total Transfers"@, "Unique Addresses"@, "Earliest Block"@, "Latest Block"@],
            ));
            render_table(&header, &rows)
        },
        OutputFormat::Json => {
            let mut object: Vec<(String, JsonField)> = Vec::new();
            object.push(number_field("total_transfers", stats.total_transfers as u64));
            object.push(number_field("unique_addresses", stats.unique_addresses as u64));
            object.push(optional_number_field("earliest_block", stats.earliest_block));
            object.push(optional_number_field("latest_block", stats.latest_block));
            assert(object_model(object@) =~= stats_json(*stats));
            render_json_pretty_object(&object)
        },
        OutputFormat::Csv => {
            let mut records: Vec<Vec<String>> = Vec::new();
            records.push(cells2("metric".to_owned(), "value".to_owned()));
            records.push(cells2("total_transfers".to_owned(), usize_to_string(stats.total_transfers)));
            records.push(cells2("unique_addresses".to_owned(), usize_to_string(stats.unique_addresses)));
            records.push(cells2("earliest_block".to_owned(), optional_number_string(stats.earliest_block)));
            records.push(cells2("latest_block".to_owned(), optional_number_string(stats.latest_block)));
            assert(grid(records@) =~= seq![seq!["metric"@, "value"@]] + stats_rows(
                *stats,
                seq!["total_transfers"@, "unique_addresses"@, "earliest_block"@, "latest_block"@],
            ));
            render_csv(&records)
        },
    }
}

} // verus!
