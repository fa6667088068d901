//! The C tokenizer's (libfyaml) cached results, and the YAML inputs of
//! YAML Test Suite files that they are computed from.
use vstd::prelude::*;

use crate::compare::opt_view;
use crate::lines::{contains_seq, contains_v, lines_of, str_lines, trim, trim_v};
use crate::test_case::{
    block_scan, elements_of, eq_str, join_lines, join_nl, key_value, key_value_v, lemma_lines_bytes,
    read_block, replace_markers, spec_replace_markers, split_elements,
};
use crate::text::{to_chars, utf8_len, vec_to_string};

verus! {

/// A cached result of the C tokenizer harness for one test case.
#[derive(Debug, Clone)]
pub struct CacheEntry {
    /// Raw JSON lines of its output (empty on error).
    pub stdout: String,
    /// The error message, if the harness failed.
    pub error: Option<String>,
}

/// Whether the text after `yaml:` opens a block: nothing, `|`, `|2` or
/// `|-`.
pub open spec fn is_yaml_block_header(t: Seq<char>) -> bool {
    t.len() == 0 || t == "|"@ || t == "|2"@ || t == "|-"@
}

/// The `yaml:` input of lines, reading from line `i`: the first line with
/// a `yaml:` key gives it, inline or as the block below it (its
/// indentation set by its first non-blank line). `None` when there is no
/// such key or the block is empty. The flag says whether every cut of the
/// block fell on a character boundary.
pub open spec fn yaml_from_lines(lines: Seq<Seq<char>>, i: int) -> (Option<Seq<char>>, bool)
    decreases lines.len() - i,
{
    if i < 0 || i >= lines.len() {
        (None, true)
    } else {
        match key_value(lines[i], "yaml"@) {
            Some(ak) => {
                let t = trim(ak);
                if is_yaml_block_header(t) {
                    let (ls, _e, ok) = block_scan(lines, i + 1, None, seq![], true);
                    (if ls.len() == 0 {
                        None
                    } else {
                        Some(spec_replace_markers(join_nl(ls)))
                    }, ok)
                } else {
                    (Some(spec_replace_markers(t)), true)
                }
            },
            None => yaml_from_lines(lines, i + 1),
        }
    }
}

/// The inputs of the first `n` elements that have one, with their indices.
pub open spec fn yaml_inputs_of(els: Seq<Seq<Seq<char>>>, n: int) -> Seq<(nat, Seq<char>)>
    decreases n,
{
    if n <= 0 {
        seq![]
    } else {
        let rest = yaml_inputs_of(els, n - 1);
        match yaml_from_lines(els[n - 1], 0).0 {
            Some(y) => rest.push(((n - 1) as nat, y)),
            None => rest,
        }
    }
}

/// The `yaml:` input of lines; see [`yaml_from_lines`].
fn extract_yaml_from_lines(lines: &Vec<Vec<char>>) -> (r: Option<String>)
    requires
        yaml_from_lines(lines.deep_view(), 0).1,
        forall|k: int| 0 <= k < lines@.len() ==> utf8_len(#[trigger] lines.deep_view()[k]) <= usize::MAX,
    ensures
        crate::compare::opt_view(r) == yaml_from_lines(lines.deep_view(), 0).0,
{
    let ghost dv = lines.deep_view();
    let mut i: usize = 0;
    while i < lines.len()
        invariant
            dv == lines.deep_view(),
            i <= dv.len(),
            yaml_from_lines(dv, 0) == yaml_from_lines(dv, i as int),
            yaml_from_lines(dv, 0).1,
            forall|k: int| 0 <= k < dv.len() ==> utf8_len(#[trigger] dv[k]) <= usize::MAX,
        decreases dv.len() - i,
    {
        let line = &lines[i];
        proof {
            assert(line@ == dv[i as int]);
            reveal_strlit("|");
            reveal_strlit("|2");
            reveal_strlit("|-");
        }
        match key_value_v(line.as_slice(), "yaml") {
            Some(ak) => {
                let t = trim_v(ak.as_slice());
                let block = t.len() == 0 || eq_str(t.as_slice(), "|") || eq_str(t.as_slice(), "|2")
                    || eq_str(t.as_slice(), "|-");
                if block {
                    let (ls, _e) = read_block(lines, i + 1, None);
                    if ls.len() == 0 {
                        return None;
                    }
                    let text = vec_to_string(&join_lines(&ls));
                    return Some(replace_markers(text));
                } else {
                    let text = vec_to_string(&t);
                    return Some(replace_markers(text));
                }
            },
            None => {},
        }
        i = i + 1;
    }
    None
}

/// The `yaml:` input of the first test case of a YAML Test Suite file,
/// read line by line; see [`yaml_from_lines`].
pub fn extract_yaml_input(content: &str) -> (r: Option<String>)
    requires
        yaml_from_lines(str_lines(content@), 0).1,
    ensures
        crate::compare::opt_view(r) == yaml_from_lines(str_lines(content@), 0).0,
{
    let chars = to_chars(content);
    let lines = lines_of(&chars);
    proof {
        lemma_lines_bytes(content@);
        crate::text::lemma_utf8_len_encode(content@);
    }
    let _n = crate::text::str_byte_len(content);
    extract_yaml_from_lines(&lines)
}

/// The `yaml:` inputs of every element of a YAML Test Suite file that has
/// one, with the element's index.
pub fn extract_all_yaml_inputs(content: &str) -> (r: Vec<(usize, String)>)
    requires
        forall|k: int| 0 <= k < elements_of(str_lines(content@)).len() ==> (#[trigger] yaml_from_lines(
            elements_of(str_lines(content@))[k],
            0,
        )).1,
    ensures
        r@.map_values(|p: (usize, String)| (p.0 as nat, p.1@)) == yaml_inputs_of(
            elements_of(str_lines(content@)),
            elements_of(str_lines(content@)).len() as int,
        ),
{
    let chars = to_chars(content);
    let lines = lines_of(&chars);
    let _n = crate::text::str_byte_len(content);
    let elements = split_elements(&lines);
    let ghost ls = str_lines(content@);
    let ghost els = elements.deep_view();
    proof {
        lemma_lines_bytes(content@);
        crate::test_case::lemma_elements_lines(ls);
    }
    let mut results: Vec<(usize, String)> = Vec::new();
    let mut k: usize = 0;
    while k < elements.len()
        invariant
            els == elements.deep_view(),
            els == elements_of(ls),
            ls == str_lines(content@),
            k <= els.len(),
            forall|a: int| 0 <= a < els.len() ==> (#[trigger] yaml_from_lines(els[a], 0)).1,
            forall|a: int, b: int| 0 <= a < els.len() && 0 <= b < els[a].len() ==> utf8_len(#[trigger] els[a][b]) <= usize::MAX,
            results@.map_values(|p: (usize, String)| (p.0 as nat, p.1@)) == yaml_inputs_of(els, k as int),
        decreases els.len() - k,
    {
        let el = &elements[k];
        proof {
            assert(el.deep_view() == els[k as int]);
        }
        let ghost before = results@;
        match extract_yaml_from_lines(el) {
            Some(y) => {
                results.push((k, y));
                proof {
                    assert(results@.map_values(|p: (usize, String)| (p.0 as nat, p.1@)) =~= before.map_values(
                        |p: (usize, String)| (p.0 as nat, p.1@),
                    ).push((k as nat, results@.last().1@)));
                }
            },
            None => {},
        }
        k = k + 1;
    }
    results
}

/// What one output line of the batch harness is.
#[derive(Debug)]
pub enum BatchLine {
    /// The `---END` line that closes a case's output.
    End,
    /// A JSON object with a string field `error`: the harness failed, with
    /// that message.
    Error(String),
    /// Anything else: a line of output.
    Output,
}

/// The string field `error` of the JSON value that `text` holds, if `text`
/// is JSON whose value is an object with such a field.
pub uninterp spec fn json_error_field(text: Seq<char>) -> Option<Seq<char>>;

/// The `error` field of the JSON object in `text` (parsed by `serde_json`
/// into a `Value`; then its `error` member, when that is a string). The
/// result is that of serde_json on `text`, named by `json_error_field`.
#[verifier::external_body]
fn error_field(text: &str) -> (r: Option<String>)
    ensures
        opt_view(r) == json_error_field(text@),
{
    match serde_json::from_str::<serde_json::Value>(text) {
        Ok(obj) => obj.get("error").and_then(|v| v.as_str()).map(|m| m.to_string()),
        Err(_) => None,
    }
}

/// What a harness line is, given the `error` field `field` of its trimmed
/// text: `End` for `---END`; `Error` for a line that mentions `"error"` and
/// carries that field; `Output` otherwise.
pub open spec fn spec_batch_line(line: Seq<char>, field: Option<Seq<char>>, r: BatchLine) -> bool {
    if trim(line) == "---END"@ {
        r is End
    } else if contains_seq(line, "\"error\""@) && field is Some {
        r matches BatchLine::Error(m) && m@ == field->Some_0
    } else {
        r is Output
    }
}

/// Classify one output line of the batch harness (see [`BatchLine`]).
pub fn batch_line(line: &str) -> (r: BatchLine)
    ensures
        spec_batch_line(line@, json_error_field(trim(line@)), r),
{
    let chars = to_chars(line);
    let t = trim_v(chars.as_slice());
    if eq_str(t.as_slice(), "---END") {
        return BatchLine::End;
    }
    if contains_v(chars.as_slice(), "\"error\"") {
        let text = vec_to_string(&t);
        match error_field(text.as_str()) {
            Some(m) => {
                return BatchLine::Error(m);
            },
            None => {},
        }
    }
    BatchLine::Output
}

} // verus!
