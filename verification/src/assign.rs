//! Variable assignments: parsing raw `key=value` strings.

use vstd::prelude::*;
use crate::errors::CliError;

verus! {

/// One variable assignment: a key naming a declared variable and the value
/// to substitute for its placeholder.
#[derive(Debug)]
pub struct Assignment {
    pub key: String,
    pub value: String,
}

/// `j` is the position of the first `=` in `s`.
pub open spec fn separator_at(s: Seq<char>, j: int) -> bool {
    &&& 0 <= j < s.len()
    &&& s[j] == '='
    &&& forall|k: int| 0 <= k < j ==> s[k] != '='
}

/// A raw pair is well formed when it has an `=` with a non-empty key part
/// before it.
pub open spec fn well_formed_pair(s: Seq<char>) -> bool {
    exists|j: int| separator_at(s, j) && j != 0
}

/// `a` is the parse of the raw string `s`: the key is everything before the
/// first `=`, non-empty, and the value everything after it.
pub open spec fn parsed_pair(s: Seq<char>, a: Assignment) -> bool {
    &&& separator_at(s, a.key@.len() as int)
    &&& a.key@.len() != 0
    &&& a.key@ == s.take(a.key@.len() as int)
    &&& a.value@ == s.skip(a.key@.len() as int + 1)
}

/// Splits a raw `key=value` string at its first `=`; a string without `=` or
/// with nothing before it is a `MalformedAssignment`.
pub fn parse_assignment(raw: &String) -> (r: Result<Assignment, CliError>)
    ensures
        r is Ok <==> well_formed_pair(raw@),
        r matches Ok(a) ==> parsed_pair(raw@, a),
        r matches Err(e) ==> e == CliError::MalformedAssignment,
{
    let s = raw.as_str();
    let n = s.unicode_len();
    let mut j: usize = 0;
    while j < n
        invariant
            j <= n,
            n == raw@.len(),
            s@ == raw@,
            forall|k: int| 0 <= k < j ==> raw@[k] != '=',
        decreases n - j,
    {
        if s.get_char(j) == '=' {
            if j == 0 {
                proof {
                    assert forall|i: int| !(separator_at(raw@, i) && i != 0) by {
                        if 0 < i < raw@.len() {
                            assert(separator_at(raw@, i) ==> raw@[0] != '=');
                        }
                    }
                }
                return Err(CliError::MalformedAssignment);
            }
            let key = s.substring_char(0, j).to_owned();
            let value = s.substring_char(j + 1, n).to_owned();
            let a = Assignment { key, value };
            proof {
                assert(a.key@.len() == j);
                assert(separator_at(raw@, j as int));
                assert(a.key@ == raw@.take(j as int));
                assert(a.value@ == raw@.skip(j + 1));
                assert(well_formed_pair(raw@));
            }
            return Ok(a);
        }
        j = j + 1;
    }
    proof {
        assert forall|i: int| !(separator_at(raw@, i) && i != 0) by {
            if 0 <= i < raw@.len() {
                assert(raw@[i] != '=');
            }
        }
    }
    Err(CliError::MalformedAssignment)
}

/// Parses every raw pair, in input order; any malformed pair fails the whole
/// run with `MalformedAssignment`.
pub fn parse_assignments(raws: &Vec<String>) -> (r: Result<Vec<Assignment>, CliError>)
    ensures
        r is Ok <==> (forall|i: int| 0 <= i < raws@.len() ==> well_formed_pair(#[trigger] raws@[i]@)),
        r matches Ok(v) ==> v@.len() == raws@.len() && (forall|i: int|
            0 <= i < raws@.len() ==> parsed_pair(raws@[i]@, #[trigger] v@[i])),
        r matches Err(e) ==> e == CliError::MalformedAssignment,
{
    let mut v: Vec<Assignment> = Vec::new();
    let mut i: usize = 0;
    while i < raws.len()
        invariant
            i <= raws@.len(),
            v@.len() == i,
            forall|k: int| 0 <= k < i ==> well_formed_pair(#[trigger] raws@[k]@),
            forall|k: int| 0 <= k < i ==> parsed_pair(raws@[k]@, #[trigger] v@[k]),
        decreases raws@.len() - i,
    {
        match parse_assignment(&raws[i]) {
            Ok(a) => v.push(a),
            Err(e) => {
                return Err(e);
            },
        }
        i = i + 1;
    }
    Ok(v)
}

} // verus!
