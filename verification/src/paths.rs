//! Where the files of a run lie, by the names of the directories and of the
//! day's extract.

use vstd::prelude::*;
use vstd::string::StringExecFns;

verus! {

/// The working directory below `output_path`, into which archives are
/// expanded.
pub open spec fn spec_work_dir(output_path: Seq<char>) -> Seq<char> {
    output_path + "/work"@
}

/// The CSV file that a run reads: `filename` with the extension `.csv` in
/// the working directory.
pub open spec fn spec_input_csv_path(output_path: Seq<char>, filename: Seq<char>) -> Seq<char> {
    output_path + "/work/"@ + filename + ".csv"@
}

/// The CSV file that a run writes: `filename` with the extension `.csv`
/// directly below `output_path`.
pub open spec fn spec_output_csv_path(output_path: Seq<char>, filename: Seq<char>) -> Seq<char> {
    output_path + "/"@ + filename + ".csv"@
}

/// The archive of a day: `filename` with the extension `.zip` below
/// `target_path`.
pub open spec fn spec_zip_file_path(target_path: Seq<char>, filename: Seq<char>) -> Seq<char> {
    target_path + "/"@ + filename + ".zip"@
}

/// The name of a day's extract: the day's stamp and the suffix of the
/// five-minute series.
pub open spec fn spec_extract_name(stamp: Seq<char>) -> Seq<char> {
    stamp + "_5Min"@
}

pub fn work_dir(output_path: &str) -> (path: String)
    ensures
        path@ == spec_work_dir(output_path@),
{
    let mut path = String::from_str(output_path);
    path.append("/work");
    path
}

pub fn input_csv_path(output_path: &str, filename: &str) -> (path: String)
    ensures
        path@ == spec_input_csv_path(output_path@, filename@),
{
    let mut path = String::from_str(output_path);
    path.append("/work/");
    path.append(filename);
    path.append(".csv");
    path
}

pub fn output_csv_path(output_path: &str, filename: &str) -> (path: String)
    ensures
        path@ == spec_output_csv_path(output_path@, filename@),
{
    let mut path = String::from_str(output_path);
    path.append("/");
    path.append(filename);
    path.append(".csv");
    path
}

pub fn zip_file_path(target_path: &str, filename: &str) -> (path: String)
    ensures
        path@ == spec_zip_file_path(target_path@, filename@),
{
    let mut path = String::from_str(target_path);
    path.append("/");
    path.append(filename);
    path.append(".zip");
    path
}

pub fn extract_name(stamp: &str) -> (name: String)
    ensures
        name@ == spec_extract_name(stamp@),
{
    let mut name = String::from_str(stamp);
    name.append("_5Min");
    name
}

} // verus!
