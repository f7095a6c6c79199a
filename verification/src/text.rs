use vstd::prelude::*;
use crate::codec::valid_code_point;

verus! {

/// The decimal digit character for one value below ten.
pub open spec fn digit_char_s(d: u64) -> char {
    ((48 + d) as u32) as char
}

/// The decimal numeral of a 64-bit value, most significant digit first.
pub open spec fn dec_str(n: u64) -> Seq<char>
    decreases n,
{
    if n < 10 {
        seq![digit_char_s(n)]
    } else {
        dec_str(n / 10).push(digit_char_s(n % 10))
    }
}

/// The decimal digit character for one value below ten.
fn digit_char(d: u64) -> (c: char)
    requires
        d < 10,
    ensures
        c == digit_char_s(d),
{
    let u: u32 = 48 + (d as u32);
    proof {
        assert(valid_code_point(u));
    }
    match char::from_u32(u) {
        Some(c) => c,
        None => {
            proof {
                assert(false);
            }
            ' '
        },
    }
}

/// Writes a 64-bit value as its decimal numeral.
pub fn u64_to_string(n: u64) -> (s: String)
    ensures
        s@ == dec_str(n),
    decreases n,
{
    if n < 10 {
        let mut s = String::new();
        s.push(digit_char(n));
        proof {
            assert(s@ =~= dec_str(n));
        }
        s
    } else {
        let mut s = u64_to_string(n / 10);
        s.push(digit_char(n % 10));
        s
    }
}

/// The staged location of the columnar file named by a caller's token.
pub open spec fn data_path_s(location: Seq<char>, token: Seq<char>) -> Seq<char> {
    location + "/data/"@ + token + ".col"@
}

/// The location of the manifest written by the commit that makes the given
/// snapshot.
pub open spec fn manifest_path_s(location: Seq<char>, snapshot_id: u64) -> Seq<char> {
    location + "/manifests/"@ + dec_str(snapshot_id) + ".mf"@
}

/// The location of one version of the table-metadata document.  Version
/// numbers are never reused, so no document is ever overwritten.
pub open spec fn metadata_path_s(location: Seq<char>, version: u64) -> Seq<char> {
    location + "/metadata/"@ + dec_str(version) + ".tm"@
}

/// Builds the staged data-file path.
pub fn data_path(location: &str, token: &str) -> (p: String)
    ensures
        p@ == data_path_s(location@, token@),
{
    let mut p = location.to_owned();
    p.append("/data/");
    p.append(token);
    p.append(".col");
    p
}

/// Builds the manifest path for one snapshot.
pub fn manifest_path(location: &str, snapshot_id: u64) -> (p: String)
    ensures
        p@ == manifest_path_s(location@, snapshot_id),
{
    let mut p = location.to_owned();
    p.append("/manifests/");
    let d = u64_to_string(snapshot_id);
    p.append(d.as_str());
    p.append(".mf");
    p
}

/// Builds the metadata-document path for one version.
pub fn metadata_path(location: &str, version: u64) -> (p: String)
    ensures
        p@ == metadata_path_s(location@, version),
{
    let mut p = location.to_owned();
    p.append("/metadata/");
    let d = u64_to_string(version);
    p.append(d.as_str());
    p.append(".tm");
    p
}

} // verus!
