//! The renderers behind the output formats: tables, comma-separated values
//! and JSON are drawn by outside crates, as are unit amounts and the short
//! form of an address.

use vstd::prelude::*;
use crate::primitives::Address;
use crate::uint::U256;

verus! {

/// The texts of a list of strings.
pub open spec fn texts(cells: Seq<String>) -> Seq<Seq<char>> {
    cells.map_values(|s: String| s@)
}

/// The texts of a list of rows.
pub open spec fn grid(rows: Seq<Vec<String>>) -> Seq<Seq<Seq<char>>> {
    rows.map_values(|r: Vec<String>| texts(r@))
}

/// One value of a JSON object: a text, a number, or null.
#[derive(Clone, Debug)]
pub enum JsonField {
    Text(String),
    Number(u64),
    Null,
}

/// A field as the renderers see it: `None` for null, a number, or a text.
pub open spec fn field_model(f: JsonField) -> Option<Result<u64, Seq<char>>> {
    match f {
        JsonField::Text(s) => Some(Err(s@)),
        JsonField::Number(n) => Some(Ok(n)),
        JsonField::Null => None,
    }
}

/// An object as the renderers see it: its keys with their values, in order.
pub open spec fn object_model(fields: Seq<(String, JsonField)>) -> Seq<(Seq<char>, Option<Result<u64, Seq<char>>>)> {
    fields.map_values(|p: (String, JsonField)| (p.0@, field_model(p.1)))
}

/// A list of objects as the renderers see it.
pub open spec fn objects_model(items: Seq<Vec<(String, JsonField)>>) -> Seq<
    Seq<(Seq<char>, Option<Result<u64, Seq<char>>>)>,
> {
    items.map_values(|o: Vec<(String, JsonField)>| object_model(o@))
}

/// The table that is drawn for a header and rows of cells.
pub uninterp spec fn table_text(header: Seq<Seq<char>>, rows: Seq<Seq<Seq<char>>>) -> Seq<char>;

/// Draws a table with `comfy_table`: a new `Table` with the preset
/// `UTF8_FULL` and the modifier `UTF8_ROUND_CORNERS`, the header, the rows,
/// and `to_string`. The contract names the text that comes back.
#[verifier::external_body]
pub(crate) fn render_table(header: &Vec<String>, rows: &Vec<Vec<String>>) -> (r: String)
    ensures
        r@ == table_text(texts(header@), grid(rows@)),
{
    let mut table = comfy_table::Table::new();
    table.load_preset(comfy_table::presets::UTF8_FULL);
    table.apply_modifier(comfy_table::modifiers::UTF8_ROUND_CORNERS);
    table.set_header(header.clone());
    table.add_rows(rows.clone());
    table.to_string()
}

/// The comma-separated text that is written for a list of records.
pub uninterp spec fn csv_text(records: Seq<Seq<Seq<char>>>) -> Seq<char>;

/// Writes records with `csv::Writer::write_record` into memory and hands
/// out what was written. The contract names the text that comes back.
#[verifier::external_body]
pub(crate) fn render_csv(records: &Vec<Vec<String>>) -> (r: String)
    ensures
        r@ == csv_text(grid(records@)),
{
    let mut writer = csv::Writer::from_writer(vec![]);
    for record in records {
        let _ = writer.write_record(record);
    }
    String::from_utf8(writer.into_inner().unwrap_or_default()).unwrap_or_default()
}

/// The indented JSON text of a list of objects, or of its first object
/// alone where `as_list` is false.
pub uninterp spec fn json_pretty_text(
    items: Seq<Seq<(Seq<char>, Option<Result<u64, Seq<char>>>)>>,
    as_list: bool,
) -> Seq<char>;

/// Builds a `serde_json::Value` that is the list of the objects and writes
/// it with `serde_json::to_string_pretty`. The contract names the text that
/// comes back.
#[verifier::external_body]
pub(crate) fn render_json_pretty(items: &Vec<Vec<(String, JsonField)>>) -> (r: String)
    ensures
        r@ == json_pretty_text(objects_model(items@), true),
{
    let objects: Vec<serde_json::Value> = items.iter().map(|o| serde_json::Value::Object(
        o.iter().map(|(k, f)| (k.clone(), match f {
            JsonField::Text(s) => serde_json::Value::from(s.as_str()),
            JsonField::Number(n) => serde_json::Value::from(*n),
            JsonField::Null => serde_json::Value::Null,
        })).collect())).collect();
    serde_json::to_string_pretty(&serde_json::Value::Array(objects)).unwrap_or_default()
}

/// Builds a `serde_json::Value` of one object and writes it with
/// `serde_json::to_string_pretty`. The contract names the text that comes
/// back.
#[verifier::external_body]
pub(crate) fn render_json_pretty_object(fields: &Vec<(String, JsonField)>) -> (r: String)
    ensures
        r@ == json_pretty_text(seq![object_model(fields@)], false),
{
    let object: serde_json::Map<String, serde_json::Value> = fields.iter().map(|(k, f)| (k.clone(), match f {
        JsonField::Text(s) => serde_json::Value::from(s.as_str()),
        JsonField::Number(n) => serde_json::Value::from(*n),
        JsonField::Null => serde_json::Value::Null,
    })).collect();
    serde_json::to_string_pretty(&serde_json::Value::Object(object)).unwrap_or_default()
}

/// The JSON text of one object on one line.
pub uninterp spec fn json_compact_text(fields: Seq<(Seq<char>, Option<Result<u64, Seq<char>>>)>) -> Seq<char>;

/// Builds a `serde_json::Value` of one object and writes it with its
/// `to_string`. The contract names the text that comes back.
#[verifier::external_body]
pub(crate) fn render_json_compact(fields: &Vec<(String, JsonField)>) -> (r: String)
    ensures
        r@ == json_compact_text(object_model(fields@)),
{
    let object: serde_json::Map<String, serde_json::Value> = fields.iter().map(|(k, f)| (k.clone(), match f {
        JsonField::Text(s) => serde_json::Value::from(s.as_str()),
        JsonField::Number(n) => serde_json::Value::from(*n),
        JsonField::Null => serde_json::Value::Null,
    })).collect();
    serde_json::Value::Object(object).to_string()
}

/// An amount written in units of ten to the power `decimals`, or `None`
/// where there is no such unit.
pub uninterp spec fn units_text(value: nat, decimals: u8) -> Option<Seq<char>>;

/// Calls `alloy_primitives::utils::format_units`. The contract names the
/// text that comes back, or that none does.
#[verifier::external_body]
pub(crate) fn format_units(value: &U256, decimals: u8) -> (r: Option<String>)
    ensures
        r is Some <==> units_text(value@, decimals) is Some,
        r matches Some(s) ==> units_text(value@, decimals) == Some(s@),
{
    let amount = alloy_primitives::U256::from_limbs([value.l0, value.l1, value.l2, value.l3]);
    alloy_primitives::utils::format_units(amount, decimals).ok()
}

/// The short form of an address.
pub uninterp spec fn address_short_text(bytes: Seq<u8>) -> Seq<char>;

/// Formats an `alloy_primitives::Address` with `{:#}`, which gives the
/// first and the last characters of its checksummed form. The contract
/// names the text that comes back.
#[verifier::external_body]
pub(crate) fn short_address(address: &Address) -> (r: String)
    ensures
        r@ == address_short_text(address.bytes@),
{
    format!("{:#}", alloy_primitives::Address::from(address.bytes))
}

} // verus!
