use vstd::prelude::*;
use vstd::string::*;

use crate::text::str_eq;

verus! {

/// The names of the hydrofabric columns that the router reads.
#[derive(Debug, Clone)]
pub struct ColumnConfig {
    pub key: String,
    pub downstream: String,
    pub dx: String,
    pub n: String,
    pub ncc: String,
    pub s0: String,
    pub bw: String,
    pub tw: String,
    pub twcc: String,
    pub cs: String,
}

/// The column names of the standard hydrofabric.
pub open spec fn standard_columns(c: ColumnConfig) -> bool {
    &&& c.key@ == "id"@
    &&& c.downstream@ == "toid"@
    &&& c.dx@ == "Length_m"@
    &&& c.n@ == "n"@
    &&& c.ncc@ == "nCC"@
    &&& c.s0@ == "So"@
    &&& c.bw@ == "BtmWdth"@
    &&& c.tw@ == "TopWdth"@
    &&& c.twcc@ == "TopWdthCC"@
    &&& c.cs@ == "ChSlp"@
}

impl ColumnConfig {
    /// The column names of the standard hydrofabric.
    pub fn new() -> (r: ColumnConfig)
        ensures
            standard_columns(r),
    {
        ColumnConfig {
            key: String::from_str("id"),
            downstream: String::from_str("toid"),
            dx: String::from_str("Length_m"),
            n: String::from_str("n"),
            ncc: String::from_str("nCC"),
            s0: String::from_str("So"),
            bw: String::from_str("BtmWdth"),
            tw: String::from_str("TopWdth"),
            twcc: String::from_str("TopWdthCC"),
            cs: String::from_str("ChSlp"),
        }
    }
}

impl Default for ColumnConfig {
    fn default() -> (r: ColumnConfig)
        ensures
            standard_columns(r),
    {
        ColumnConfig::new()
    }
}

/// The forms in which the results of a run can be written.
#[derive(Debug, Clone, Copy, PartialEq, Eq, Structural)]
pub enum OutputFormat {
    Csv,
    NetCdf,
    Both,
}

/// The output format that a setting names: `CSV`, `NetCDF` or `Both`.
pub open spec fn output_format_named(name: Seq<char>) -> Option<OutputFormat> {
    if name == "CSV"@ {
        Some(OutputFormat::Csv)
    } else if name == "NetCDF"@ {
        Some(OutputFormat::NetCdf)
    } else if name == "Both"@ {
        Some(OutputFormat::Both)
    } else {
        None
    }
}

impl OutputFormat {
    /// The output format that `name` names, or `None` for an invalid output type.
    pub fn from_name(name: &str) -> (r: Option<OutputFormat>)
        ensures
            r == output_format_named(name@),
    {
        if str_eq(name, "CSV") {
            Some(OutputFormat::Csv)
        } else if str_eq(name, "NetCDF") {
            Some(OutputFormat::NetCdf)
        } else if str_eq(name, "Both") {
            Some(OutputFormat::Both)
        } else {
            None
        }
    }

    /// Whether results in this format include a CSV table.
    pub fn writes_csv(self) -> (r: bool)
        ensures
            r == (self == OutputFormat::Csv || self == OutputFormat::Both),
    {
        match self {
            OutputFormat::Csv | OutputFormat::Both => true,
            OutputFormat::NetCdf => false,
        }
    }
}

} // verus!
