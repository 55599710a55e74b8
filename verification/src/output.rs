//! Output formats for scan results: a short table, a one-line summary, or
//! JSON (serialized by the caller and passed through).

use vstd::prelude::*;
use crate::error::DomainScanError;
use crate::ir::{build_status_label, confidence_label, language_name, IrFile, ScanIndex};
use crate::text::{append_str, dec, decimal};

verus! {

/// Output format for CLI and API responses.
#[derive(Debug, Clone, Copy, PartialEq, Eq, Structural)]
pub enum OutputFormat {
    Json,
    Table,
    Compact,
}

/// The table form of a scan: root and file count, version, and the
/// entity totals on two lines.
pub open spec fn index_table(ix: ScanIndex) -> Seq<char> {
    "Scan: "@ + ix.root@ + " ("@ + dec(ix.stats.total_files as nat) + " files)\n"@ + "Version: "@
        + ix.version@ + "\n"@ + "Interfaces: "@ + dec(ix.stats.total_interfaces as nat)
        + " | Services: "@ + dec(ix.stats.total_services as nat) + " | Classes: "@ + dec(
        ix.stats.total_classes as nat,
    ) + " | Functions: "@ + dec(ix.stats.total_functions as nat) + "\n"@ + "Schemas: "@ + dec(
        ix.stats.total_schemas as nat,
    ) + " | Type Aliases: "@ + dec(ix.stats.total_type_aliases as nat) + " | Implementations: "@
        + dec(ix.stats.total_implementations as nat) + "\n"@
}

/// The one-line form of a scan.
pub open spec fn index_compact(ix: ScanIndex) -> Seq<char> {
    dec(ix.stats.total_files as nat) + " files | "@ + dec(ix.stats.total_interfaces as nat)
        + " iface | "@ + dec(ix.stats.total_services as nat) + " svc | "@ + dec(
        ix.stats.total_classes as nat,
    ) + " cls | "@ + dec(ix.stats.total_functions as nat) + " fn | "@ + dec(
        ix.stats.total_schemas as nat,
    ) + " schema"@
}

/// The table form of a file: `path: Language (Status, confidence)`.
pub open spec fn file_table(f: IrFile) -> Seq<char> {
    f.path@ + ": "@ + language_name(f.language) + " ("@ + build_status_label(f.build_status) + ", "@
        + confidence_label(f.confidence) + ")"@
}

/// The one-line form of a file: `path [Language]`.
pub open spec fn file_compact(f: IrFile) -> Seq<char> {
    f.path@ + " ["@ + language_name(f.language) + "]"@
}

fn append_count(r: &mut String, n: usize)
    ensures
        final(r)@ == old(r)@ + dec(n as nat),
{
    let d = decimal(n as u64);
    append_str(r, d.as_str());
}

fn format_table(ix: &ScanIndex) -> (r: String)
    ensures
        r@ == index_table(*ix),
{
    let mut r = String::new();
    append_str(&mut r, "Scan: ");
    append_str(&mut r, ix.root.as_str());
    append_str(&mut r, " (");
    append_count(&mut r, ix.stats.total_files);
    append_str(&mut r, " files)\n");
    append_str(&mut r, "Version: ");
    append_str(&mut r, ix.version.as_str());
    append_str(&mut r, "\n");
    append_str(&mut r, "Interfaces: ");
    append_count(&mut r, ix.stats.total_interfaces);
    append_str(&mut r, " | Services: ");
    append_count(&mut r, ix.stats.total_services);
    append_str(&mut r, " | Classes: ");
    append_count(&mut r, ix.stats.total_classes);
    append_str(&mut r, " | Functions: ");
    append_count(&mut r, ix.stats.total_functions);
    append_str(&mut r, "\n");
    append_str(&mut r, "Schemas: ");
    append_count(&mut r, ix.stats.total_schemas);
    append_str(&mut r, " | Type Aliases: ");
    append_count(&mut r, ix.stats.total_type_aliases);
    append_str(&mut r, " | Implementations: ");
    append_count(&mut r, ix.stats.total_implementations);
    append_str(&mut r, "\n");
    assert(r@ =~= index_table(*ix));
    r
}

fn format_compact(ix: &ScanIndex) -> (r: String)
    ensures
        r@ == index_compact(*ix),
{
    let mut r = String::new();
    append_count(&mut r, ix.stats.total_files);
    append_str(&mut r, " files | ");
    append_count(&mut r, ix.stats.total_interfaces);
    append_str(&mut r, " iface | ");
    append_count(&mut r, ix.stats.total_services);
    append_str(&mut r, " svc | ");
    append_count(&mut r, ix.stats.total_classes);
    append_str(&mut r, " cls | ");
    append_count(&mut r, ix.stats.total_functions);
    append_str(&mut r, " fn | ");
    append_count(&mut r, ix.stats.total_schemas);
    append_str(&mut r, " schema");
    assert(r@ =~= index_compact(*ix));
    r
}

fn format_ir_file_table(f: &IrFile) -> (r: String)
    ensures
        r@ == file_table(*f),
{
    let mut r = String::new();
    append_str(&mut r, f.path.as_str());
    append_str(&mut r, ": ");
    let l = f.language.to_string();
    append_str(&mut r, l.as_str());
    append_str(&mut r, " (");
    let b = f.build_status.to_string();
    append_str(&mut r, b.as_str());
    append_str(&mut r, ", ");
    let c = f.confidence.to_string();
    append_str(&mut r, c.as_str());
    append_str(&mut r, ")");
    assert(r@ =~= file_table(*f));
    r
}

fn format_ir_file_compact(f: &IrFile) -> (r: String)
    ensures
        r@ == file_compact(*f),
{
    let mut r = String::new();
    append_str(&mut r, f.path.as_str());
    append_str(&mut r, " [");
    let l = f.language.to_string();
    append_str(&mut r, l.as_str());
    append_str(&mut r, "]");
    assert(r@ =~= file_compact(*f));
    r
}

/// Formats a scan in the given format. For JSON, `json` is the index
/// serialized as pretty JSON (or why serializing failed): it is passed
/// through, a failure becoming a serialization error.
pub fn format_scan_index(index: &ScanIndex, format: OutputFormat, json: Result<String, String>) -> (r:
    Result<String, DomainScanError>)
    ensures
        match format {
            OutputFormat::Json => match json {
                Ok(j) => r matches Ok(t) && t@ == j@,
                Err(e) => r == Err::<String, DomainScanError>(DomainScanError::Serialization(e)),
            },
            OutputFormat::Table => r matches Ok(t) && t@ == index_table(*index),
            OutputFormat::Compact => r matches Ok(t) && t@ == index_compact(*index),
        },
{
    match format {
        OutputFormat::Json => match json {
            Ok(j) => Ok(j),
            Err(e) => Err(DomainScanError::Serialization(e)),
        },
        OutputFormat::Table => Ok(format_table(index)),
        OutputFormat::Compact => Ok(format_compact(index)),
    }
}

/// Formats a single file in the given format. For JSON, `json` is the
/// file serialized as pretty JSON (or why serializing failed).
pub fn format_ir_file(file: &IrFile, format: OutputFormat, json: Result<String, String>) -> (r: Result<
    String,
    DomainScanError,
>)
    ensures
        match format {
            OutputFormat::Json => match json {
                Ok(j) => r matches Ok(t) && t@ == j@,
                Err(e) => r == Err::<String, DomainScanError>(DomainScanError::Serialization(e)),
            },
            OutputFormat::Table => r matches Ok(t) && t@ == file_table(*file),
            OutputFormat::Compact => r matches Ok(t) && t@ == file_compact(*file),
        },
{
    match format {
        OutputFormat::Json => match json {
            Ok(j) => Ok(j),
            Err(e) => Err(DomainScanError::Serialization(e)),
        },
        OutputFormat::Table => Ok(format_ir_file_table(file)),
        OutputFormat::Compact => Ok(format_ir_file_compact(file)),
    }
}

} // verus!
