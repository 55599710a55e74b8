//! Input validation for every CLI / API boundary.
//!
//! Agents are not trusted operators: they hallucinate paths, embed query
//! parameters in ids, generate control characters and pre-encode strings.
//! Every input boundary is validated here. The checks that need the file
//! system (existence, canonicalization) are made by the caller, which hands
//! their results to `check_within_base`.

use vstd::prelude::*;
use crate::path::{components, components_of, comps_view, join, path_join, starts_with, path_starts_with, Comp, PathComponent};
use crate::text::{append_str, chars_of, contains_char, contains_seq, dec, decimal, string_of};
use crate::DomainScanError;
use crate::error::ErrorSpec;
use crate::json::{
    json_depth, json_view, lemma_depth_view, parse_json_text, parsed_json, spec_depth, spec_json_depth, JsonSpec,
    JsonValue,
};

verus! {

/// Maximum allowed path length in bytes.
pub const MAX_PATH_LEN: usize = 4096;

/// Maximum allowed string input length in bytes.
pub const MAX_STRING_INPUT_LEN: usize = 10000;

/// Maximum allowed regex pattern length in bytes.
pub const MAX_REGEX_LEN: usize = 1024;

/// Maximum allowed JSON input size in bytes.
pub const MAX_JSON_SIZE: usize = 1048576;

/// Maximum allowed JSON nesting depth.
pub const MAX_JSON_DEPTH: usize = 32;

// ---------------------------------------------------------------------------
// Byte lengths
// ---------------------------------------------------------------------------

/// The number of bytes of a character in UTF-8.
pub open spec fn utf8_width(c: char) -> nat {
    if (c as u32) < 0x80 {
        1
    } else if (c as u32) < 0x800 {
        2
    } else if (c as u32) < 0x10000 {
        3
    } else {
        4
    }
}

/// The number of bytes of a string in UTF-8 (`str::len`).
pub open spec fn utf8_len(s: Seq<char>) -> nat
    decreases s.len(),
{
    if s.len() == 0 {
        0
    } else {
        utf8_len(s.drop_last()) + utf8_width(s.last())
    }
}

proof fn lemma_utf8_len_bound(s: Seq<char>)
    ensures
        utf8_len(s) <= 4 * s.len(),
    decreases s.len(),
{
    if s.len() > 0 {
        lemma_utf8_len_bound(s.drop_last());
    }
}

fn width_of(c: char) -> (w: usize)
    ensures
        w == utf8_width(c),
{
    proof {
        crate::text::lemma_char_code(c);
    }
    let u = c as u32;
    if u < 0x80 {
        1
    } else if u < 0x800 {
        2
    } else if u < 0x10000 {
        3
    } else {
        4
    }
}

/// The UTF-8 length of a string.
pub fn byte_len(s: &str) -> (n: usize)
    requires
        4 * s@.len() <= usize::MAX,
    ensures
        n == utf8_len(s@),
{
    let v = chars_of(s);
    let mut n: usize = 0;
    let mut i: usize = 0;
    while i < v.len()
        invariant
            i <= v.len(),
            v@ == s@,
            4 * s@.len() <= usize::MAX,
            n == utf8_len(v@.take(i as int)),
        decreases v.len() - i,
    {
        proof {
            assert(v@.take(i + 1 as int).drop_last() =~= v@.take(i as int));
            lemma_utf8_len_bound(v@.take(i as int));
        }
        n = n + width_of(v[i]);
        i += 1;
    }
    assert(v@.take(v.len() as int) =~= v@);
    n
}

// ---------------------------------------------------------------------------
// String input
// ---------------------------------------------------------------------------

/// A control character other than newline and tab (below `0x20`).
pub open spec fn is_bad_control(c: char) -> bool {
    (c as u32) < 0x20 && c != '\n' && c != '\t'
}

/// The position of the first NUL or other rejected control character.
pub open spec fn first_bad(s: Seq<char>) -> Option<int>
    decreases s.len(),
{
    if s.len() == 0 {
        None
    } else {
        match first_bad(s.drop_last()) {
            Some(k) => Some(k),
            None => if is_bad_control(s.last()) {
                Some(s.len() - 1)
            } else {
                None
            },
        }
    }
}

/// A hexadecimal digit.
pub open spec fn hex_digit(d: nat) -> char {
    if d < 10 {
        crate::text::digit_char(d)
    } else if d == 10 { 'a' }
    else if d == 11 { 'b' }
    else if d == 12 { 'c' }
    else if d == 13 { 'd' }
    else if d == 14 { 'e' }
    else { 'f' }
}

/// Two lowercase hexadecimal digits (`{:02x}`) of a number below 256.
pub open spec fn hex2(n: nat) -> Seq<char> {
    seq![hex_digit(n / 16), hex_digit(n % 16)]
}

/// The message for a rejected character of `s` at position `k`.
pub open spec fn bad_char_message(s: Seq<char>, k: int) -> Seq<char> {
    let pos = dec(utf8_len(s.take(k)));
    if s[k] == '\0' {
        "Input contains null byte at position "@ + pos
    } else {
        "Input contains control character 0x"@ + hex2(s[k] as u32 as nat) + " at position "@ + pos
    }
}

fn hex_digit_of(d: u32) -> (c: char)
    requires
        d < 16,
    ensures
        c == hex_digit(d as nat),
{
    if d == 0 { '0' }
    else if d == 1 { '1' }
    else if d == 2 { '2' }
    else if d == 3 { '3' }
    else if d == 4 { '4' }
    else if d == 5 { '5' }
    else if d == 6 { '6' }
    else if d == 7 { '7' }
    else if d == 8 { '8' }
    else if d == 9 { '9' }
    else if d == 10 { 'a' }
    else if d == 11 { 'b' }
    else if d == 12 { 'c' }
    else if d == 13 { 'd' }
    else if d == 14 { 'e' }
    else { 'f' }
}

/// Validates a string input (names, patterns, filter values): at most
/// `MAX_STRING_INPUT_LEN` bytes, no NUL and no control character other
/// than newline and tab.
pub fn validate_string_input(input: &str) -> (r: Result<&str, DomainScanError>)
    requires
        4 * input@.len() <= usize::MAX,
    ensures
        utf8_len(input@) > MAX_STRING_INPUT_LEN ==> (r matches Err(e) && e@ == ErrorSpec::InvalidInput(
            "Input exceeds maximum length of 10000 bytes (got "@ + dec(utf8_len(input@)) + ")"@,
        )),
        utf8_len(input@) <= MAX_STRING_INPUT_LEN ==> match first_bad(input@) {
            None => r == Ok::<&str, DomainScanError>(input),
            Some(k) => r matches Err(e) && e@ == ErrorSpec::InvalidInput(bad_char_message(input@, k)),
        },
{
    let len = byte_len(input);
    if len > MAX_STRING_INPUT_LEN {
        let mut m = string_of(&chars_of("Input exceeds maximum length of 10000 bytes (got "));
        append_str(&mut m, decimal(len as u64).as_str());
        append_str(&mut m, ")");
        return Err(DomainScanError::InvalidInput(m));
    }
    let v = chars_of(input);
    let mut pos: usize = 0;
    let mut i: usize = 0;
    while i < v.len()
        invariant
            i <= v.len(),
            v@ == input@,
            4 * input@.len() <= usize::MAX,
            pos == utf8_len(v@.take(i as int)),
            utf8_len(input@) <= MAX_STRING_INPUT_LEN,
            first_bad(v@.take(i as int)) is None,
        decreases v.len() - i,
    {
        let ch = v[i];
        proof {
            assert(v@.take(i + 1 as int).drop_last() =~= v@.take(i as int));
            lemma_utf8_len_bound(v@.take(i as int));
            crate::text::lemma_char_code(ch);
            lemma_first_bad_prefix(v@, i as int);
        }
        if ch == '\0' {
            let mut m = string_of(&chars_of("Input contains null byte at position "));
            append_str(&mut m, decimal(pos as u64).as_str());
            return Err(DomainScanError::InvalidInput(m));
        }
        let u = ch as u32;
        if u < 0x20 && ch != '\n' && ch != '\t' {
            let mut m = string_of(&chars_of("Input contains control character 0x"));
            m.push(hex_digit_of(u / 16));
            m.push(hex_digit_of(u % 16));
            append_str(&mut m, " at position ");
            append_str(&mut m, decimal(pos as u64).as_str());
            assert(m@ =~= bad_char_message(input@, i as int));
            return Err(DomainScanError::InvalidInput(m));
        }
        pos = pos + width_of(ch);
        i += 1;
    }
    assert(v@.take(v.len() as int) =~= v@);
    Ok(input)
}

proof fn lemma_first_bad_prefix(s: Seq<char>, i: int)
    requires
        0 <= i < s.len(),
        first_bad(s.take(i)) is None,
    ensures
        is_bad_control(s[i]) ==> first_bad(s) == Some(i),
        !is_bad_control(s[i]) ==> first_bad(s.take(i + 1)) is None,
    decreases s.len() - i,
{
    assert(s.take(i + 1).drop_last() =~= s.take(i));
    if is_bad_control(s[i]) {
        lemma_first_bad_extend(s, i + 1, i);
    }
}

proof fn lemma_first_bad_extend(s: Seq<char>, n: int, k: int)
    requires
        0 <= n <= s.len(),
        first_bad(s.take(n)) == Some(k),
    ensures
        first_bad(s) == Some(k),
    decreases s.len() - n,
{
    if n < s.len() {
        assert(s.take(n + 1).drop_last() =~= s.take(n));
        lemma_first_bad_extend(s, n + 1, k);
    } else {
        assert(s.take(n) =~= s);
    }
}

// ---------------------------------------------------------------------------
// Resource ids
// ---------------------------------------------------------------------------

/// Validates a resource identifier: no `?` (query), `#` (fragment) or `%`
/// (pre-encoding), checked in that order.
pub fn validate_resource_id(input: &str) -> (r: Result<&str, DomainScanError>)
    ensures
        input@.contains('?') ==> (r matches Err(e) && e@ == ErrorSpec::InvalidResourceId(
            "Resource ID contains query parameter: "@ + input@,
        )),
        !input@.contains('?') && input@.contains('#') ==> (r matches Err(e) && e@
            == ErrorSpec::InvalidResourceId("Resource ID contains fragment: "@ + input@)),
        !input@.contains('?') && !input@.contains('#') && input@.contains('%') ==> (r matches Err(e)
            && e@ == ErrorSpec::InvalidResourceId("Resource ID contains percent-encoding: "@ + input@)),
        !input@.contains('?') && !input@.contains('#') && !input@.contains('%') ==> r == Ok::<
            &str,
            DomainScanError,
        >(input),
{
    let v = chars_of(input);
    if contains_char(&v, '?') {
        let mut m = string_of(&chars_of("Resource ID contains query parameter: "));
        append_str(&mut m, input);
        return Err(DomainScanError::InvalidResourceId(m));
    }
    if contains_char(&v, '#') {
        let mut m = string_of(&chars_of("Resource ID contains fragment: "));
        append_str(&mut m, input);
        return Err(DomainScanError::InvalidResourceId(m));
    }
    if contains_char(&v, '%') {
        let mut m = string_of(&chars_of("Resource ID contains percent-encoding: "));
        append_str(&mut m, input);
        return Err(DomainScanError::InvalidResourceId(m));
    }
    Ok(input)
}

// ---------------------------------------------------------------------------
// Paths
// ---------------------------------------------------------------------------

/// `s` with each NUL written as the two characters `\0`.
pub open spec fn escape_nul(s: Seq<char>) -> Seq<char>
    decreases s.len(),
{
    if s.len() == 0 {
        Seq::empty()
    } else if s.last() == '\0' {
        escape_nul(s.drop_last()) + seq!['\\', '0']
    } else {
        escape_nul(s.drop_last()).push(s.last())
    }
}

/// What `format!("{:?}", s)` writes for a string: its quoted, escaped
/// form.
pub uninterp spec fn debug_text(s: Seq<char>) -> Seq<char>;

/// `format!("{:?}", s)`. Claims only that the text is a function of `s`;
/// the escaping rules of `Debug` are not stated.
#[verifier::external_body]
pub(crate) fn debug_string(s: &str) -> (r: String)
    ensures
        r@ == debug_text(s@),
{
    format!("{:?}", s)
}

fn escape_nul_string(s: &str) -> (r: String)
    ensures
        r@ == escape_nul(s@),
{
    let v = chars_of(s);
    let mut r = String::new();
    let mut i: usize = 0;
    while i < v.len()
        invariant
            i <= v.len(),
            v@ == s@,
            r@ == escape_nul(v@.take(i as int)),
        decreases v.len() - i,
    {
        assert(v@.take(i + 1 as int).drop_last() =~= v@.take(i as int));
        if v[i] == '\0' {
            r.push('\\');
            r.push('0');
        } else {
            r.push(v[i]);
        }
        i += 1;
        assert(r@ =~= escape_nul(v@.take(i as int)));
    }
    assert(v@.take(v.len() as int) =~= v@);
    r
}

/// Whether a path has a `..` component.
pub open spec fn has_traversal(p: Seq<char>) -> bool {
    components(p).contains(Comp::Parent)
}

fn traversal_in(p: &str) -> (r: bool)
    ensures
        r == has_traversal(p@),
{
    let cs = components_of(&chars_of(p));
    let ghost cv = comps_view(cs@);
    let mut i: usize = 0;
    while i < cs.len()
        invariant
            i <= cs.len(),
            cv == comps_view(cs@),
            cv == components(p@),
            forall|k: int| 0 <= k < i ==> cv[k] != Comp::Parent,
        decreases cs.len() - i,
    {
        match &cs[i] {
            PathComponent::Parent => {
                assert(cv[i as int] == Comp::Parent);
                return true;
            },
            _ => {},
        }
        i += 1;
    }
    false
}

/// The checks made on a path before touching the file system: `Ok` with
/// the path resolved against the base directory, unless it holds a NUL,
/// is longer than `MAX_PATH_LEN` bytes, or has a `..` component. `output`
/// selects the messages for output paths.
pub open spec fn spec_path_precheck(input: Seq<char>, base: Seq<char>, output: bool) -> Result<Seq<char>, ErrorSpec> {
    let what = if output { "Output path"@ } else { "Path"@ };
    if input.contains('\0') {
        Err(ErrorSpec::InvalidPath(what + " contains null byte: "@ + debug_text(escape_nul(input))))
    } else if utf8_len(input) > MAX_PATH_LEN {
        Err(ErrorSpec::InvalidPath(if output {
            "Output path exceeds maximum length of 4096 bytes"@
        } else {
            "Path exceeds maximum length of 4096 bytes (got "@ + dec(utf8_len(input)) + ")"@
        }))
    } else if has_traversal(input) {
        Err(ErrorSpec::InvalidPath(what + " contains traversal segment: "@ + input))
    } else {
        Ok(join(base, input))
    }
}

pub open spec fn result_view(r: Result<String, DomainScanError>) -> Result<Seq<char>, ErrorSpec> {
    match r {
        Ok(s) => Ok(s@),
        Err(e) => Err(e@),
    }
}

/// Checks a path input before the file system is consulted (see
/// `spec_path_precheck`); on success, the path resolved against the base.
pub fn precheck_path(input: &str, base_dir: &str, output: bool) -> (r: Result<String, DomainScanError>)
    requires
        4 * input@.len() <= usize::MAX,
    ensures
        result_view(r) == spec_path_precheck(input@, base_dir@, output),
{
    let what = if output { "Output path" } else { "Path" };
    let v = chars_of(input);
    if contains_char(&v, '\0') {
        let mut m = string_of(&chars_of(what));
        append_str(&mut m, " contains null byte: ");
        let esc = escape_nul_string(input);
        append_str(&mut m, debug_string(esc.as_str()).as_str());
        return Err(DomainScanError::InvalidPath(m));
    }
    let len = byte_len(input);
    if len > MAX_PATH_LEN {
        if output {
            return Err(DomainScanError::InvalidPath(string_of(&chars_of("Output path exceeds maximum length of 4096 bytes"))));
        }
        let mut m = string_of(&chars_of("Path exceeds maximum length of 4096 bytes (got "));
        append_str(&mut m, decimal(len as u64).as_str());
        append_str(&mut m, ")");
        return Err(DomainScanError::InvalidPath(m));
    }
    if traversal_in(input) {
        let mut m = string_of(&chars_of(what));
        append_str(&mut m, " contains traversal segment: ");
        append_str(&mut m, input);
        return Err(DomainScanError::InvalidPath(m));
    }
    Ok(path_join(base_dir, input))
}

/// The final check of `validate_path`: the canonical path must lie under
/// the canonical base directory.
pub fn check_within_base(input: &str, canonical: &str, canonical_base: &str) -> (r: Result<String, DomainScanError>)
    ensures
        starts_with(canonical@, canonical_base@) ==> (r matches Ok(p) && p@ == canonical@),
        !starts_with(canonical@, canonical_base@) ==> (r matches Err(e) && e@ == ErrorSpec::InvalidPath(
            "Path escapes base directory: "@ + input@ + " (resolved to "@ + canonical@ + ")"@,
        )),
{
    if path_starts_with(canonical, canonical_base) {
        Ok(string_of(&chars_of(canonical)))
    } else {
        let mut m = string_of(&chars_of("Path escapes base directory: "));
        append_str(&mut m, input);
        append_str(&mut m, " (resolved to ");
        append_str(&mut m, canonical);
        append_str(&mut m, ")");
        Err(DomainScanError::InvalidPath(m))
    }
}

/// The final check of `validate_output_path`: the parent directory must
/// lie under the base directory (each canonical where it exists).
pub fn check_output_within_base(input: &str, canonical_parent: &str, canonical_base: &str) -> (r: Result<(), DomainScanError>)
    ensures
        starts_with(canonical_parent@, canonical_base@) ==> r is Ok,
        !starts_with(canonical_parent@, canonical_base@) ==> (r matches Err(e) && e@ == ErrorSpec::InvalidPath(
            "Output path escapes base directory: "@ + input@,
        )),
{
    if path_starts_with(canonical_parent, canonical_base) {
        Ok(())
    } else {
        let mut m = string_of(&chars_of("Output path escapes base directory: "));
        append_str(&mut m, input);
        Err(DomainScanError::InvalidPath(m))
    }
}

// ---------------------------------------------------------------------------
// Regular expressions
// ---------------------------------------------------------------------------

/// What `regex::Regex::new` reports for a pattern: `None` when it
/// compiles, otherwise its error's text.
pub uninterp spec fn regex_error(pattern: Seq<char>) -> Option<Seq<char>>;

/// `regex::Regex::new`, keeping only whether it compiled. Claims that the
/// outcome and the error text are a function of the pattern; which
/// patterns compile is not stated.
#[verifier::external_body]
fn regex_check(pattern: &str) -> (r: Result<(), String>)
    ensures
        r is Ok <==> regex_error(pattern@) is None,
        r matches Err(e) ==> regex_error(pattern@) == Some(e@),
{
    regex::Regex::new(pattern).map(|_| ()).map_err(|e| e.to_string())
}

/// Whether `regex::Regex::is_match` finds a match of the (compiling)
/// pattern anywhere in the text.
pub uninterp spec fn regex_match(pattern: Seq<char>, text: Seq<char>) -> bool;

/// `regex::Regex::new(pattern)`, then `is_match(text)` on the compiled
/// regex. Claims that the result is `None` exactly when the pattern does
/// not compile, and otherwise the match answer, a function of the pattern
/// and the text; the regex semantics are not stated.
#[verifier::external_body]
pub(crate) fn regex_find(pattern: &str, text: &str) -> (r: Option<bool>)
    ensures
        r is None <==> regex_error(pattern@) is Some,
        r matches Some(b) ==> b == regex_match(pattern@, text@),
{
    regex::Regex::new(pattern).ok().map(|re| re.is_match(text))
}

/// Whether a name passes a name pattern: the pattern is a regular
/// expression searched for in the name; a pattern that does not compile as
/// one is taken literally, as a substring.
pub open spec fn name_matches(pattern: Seq<char>, name: Seq<char>) -> bool {
    match regex_error(pattern) {
        None => regex_match(pattern, name),
        Some(_) => contains_seq(name, pattern),
    }
}

/// A regular expression that compiles, held by its pattern.
#[derive(Debug)]
pub struct ValidRegex {
    pattern: String,
}

impl View for ValidRegex {
    type V = Seq<char>;

    closed spec fn view(&self) -> Seq<char> {
        self.pattern@
    }
}

impl ValidRegex {
    #[verifier::type_invariant]
    closed spec fn compiles(self) -> bool {
        regex_error(self.pattern@) is None
    }

    /// The pattern, which compiles.
    pub fn as_str(&self) -> (r: &str)
        ensures
            r@ == self@,
            regex_error(r@) is None,
    {
        proof {
            use_type_invariant(self);
        }
        self.pattern.as_str()
    }

    /// Whether the regex matches anywhere in `text`.
    pub fn is_match(&self, text: &str) -> (b: bool)
        ensures
            b == regex_match(self@, text@),
    {
        proof {
            use_type_invariant(self);
        }
        match regex_find(self.pattern.as_str(), text) {
            Some(b) => b,
            None => false,
        }
    }
}

/// Validates and compiles a regex pattern: at most `MAX_REGEX_LEN` bytes,
/// and it must compile; the regex handed back is the one of `pattern`.
pub fn validate_regex(pattern: &str) -> (r: Result<ValidRegex, DomainScanError>)
    requires
        4 * pattern@.len() <= usize::MAX,
    ensures
        utf8_len(pattern@) > MAX_REGEX_LEN ==> (r matches Err(e) && e@ == ErrorSpec::InvalidRegex(
            "Regex pattern exceeds maximum length of 1024 chars (got "@ + dec(utf8_len(pattern@)) + ")"@,
        )),
        utf8_len(pattern@) <= MAX_REGEX_LEN ==> (r is Ok <==> regex_error(pattern@) is None),
        utf8_len(pattern@) <= MAX_REGEX_LEN && regex_error(pattern@) is Some ==> (r matches Err(e)
            && e@ == ErrorSpec::InvalidRegex("Invalid regex: "@ + regex_error(pattern@)->Some_0)),
        r matches Ok(v) ==> v@ == pattern@,
{
    let len = byte_len(pattern);
    if len > MAX_REGEX_LEN {
        let mut m = string_of(&chars_of("Regex pattern exceeds maximum length of 1024 chars (got "));
        append_str(&mut m, decimal(len as u64).as_str());
        append_str(&mut m, ")");
        return Err(DomainScanError::InvalidRegex(m));
    }
    match regex_check(pattern) {
        Ok(()) => Ok(ValidRegex { pattern: string_of(&chars_of(pattern)) }),
        Err(e) => {
            let mut m = string_of(&chars_of("Invalid regex: "));
            append_str(&mut m, e.as_str());
            Err(DomainScanError::InvalidRegex(m))
        },
    }
}

// ---------------------------------------------------------------------------
// JSON
// ---------------------------------------------------------------------------

/// The checks of JSON input around its parsing: at most `MAX_JSON_SIZE`
/// bytes, then the parser's outcome (`parsed`: the value, or the parser's
/// error text), then a nesting depth of at most `MAX_JSON_DEPTH`.
pub fn check_json_input(input: &str, parsed: Result<JsonValue, String>) -> (r: Result<JsonValue, DomainScanError>)
    requires
        4 * input@.len() <= usize::MAX,
    ensures
        utf8_len(input@) > MAX_JSON_SIZE ==> (r matches Err(e) && e@ == ErrorSpec::InvalidJson(
            "JSON input exceeds maximum size of 1048576 bytes (got "@ + dec(utf8_len(input@)) + ")"@,
        )),
        utf8_len(input@) <= MAX_JSON_SIZE ==> match parsed {
            Err(m) => r matches Err(e) && e@ == ErrorSpec::InvalidJson("JSON parse error: "@ + m@),
            Ok(v) => if spec_json_depth(v) > MAX_JSON_DEPTH {
                r matches Err(e) && e@ == ErrorSpec::InvalidJson(
                    "JSON nesting depth exceeds maximum of 32 (got "@ + dec(
                        if spec_json_depth(v) > usize::MAX { usize::MAX as nat } else { spec_json_depth(v) },
                    ) + ")"@,
                )
            } else {
                r == Ok::<JsonValue, DomainScanError>(v)
            },
        },
{
    let len = byte_len(input);
    if len > MAX_JSON_SIZE {
        return Err(json_size_error(len));
    }
    match parsed {
        Err(e) => {
            let mut m = string_of(&chars_of("JSON parse error: "));
            append_str(&mut m, e.as_str());
            Err(DomainScanError::InvalidJson(m))
        },
        Ok(v) => {
            let depth = json_depth(&v);
            if depth > MAX_JSON_DEPTH {
                let mut m = string_of(&chars_of("JSON nesting depth exceeds maximum of 32 (got "));
                append_str(&mut m, decimal(depth as u64).as_str());
                append_str(&mut m, ")");
                Err(DomainScanError::InvalidJson(m))
            } else {
                Ok(v)
            }
        },
    }
}


/// The error for JSON input of `len` bytes, over the size limit.
fn json_size_error(len: usize) -> (e: DomainScanError)
    ensures
        e@ == ErrorSpec::InvalidJson(
            "JSON input exceeds maximum size of 1048576 bytes (got "@ + dec(len as nat) + ")"@,
        ),
{
    let mut m = string_of(&chars_of("JSON input exceeds maximum size of 1048576 bytes (got "));
    append_str(&mut m, decimal(len as u64).as_str());
    append_str(&mut m, ")");
    DomainScanError::InvalidJson(m)
}

/// What the JSON input checks make of `input`, given what the parser makes
/// of it: too large (over `MAX_JSON_SIZE` bytes, before any parsing), not
/// JSON, nested deeper than `MAX_JSON_DEPTH`, or the parsed content.
pub open spec fn json_input_outcome(input: Seq<char>, parsed: Result<JsonSpec, Seq<char>>) -> Result<
    JsonSpec,
    ErrorSpec,
> {
    if utf8_len(input) > MAX_JSON_SIZE {
        Err(
            ErrorSpec::InvalidJson(
                "JSON input exceeds maximum size of 1048576 bytes (got "@ + dec(utf8_len(input)) + ")"@,
            ),
        )
    } else {
        match parsed {
            Err(m) => Err(ErrorSpec::InvalidJson("JSON parse error: "@ + m)),
            Ok(j) => if spec_depth(j) > MAX_JSON_DEPTH {
                Err(
                    ErrorSpec::InvalidJson(
                        "JSON nesting depth exceeds maximum of 32 (got "@ + dec(
                            if spec_depth(j) > usize::MAX { usize::MAX as nat } else { spec_depth(j) },
                        ) + ")"@,
                    ),
                )
            } else {
                Ok(j)
            },
        }
    }
}

/// A JSON check's result, by content.
pub open spec fn json_result_view(r: Result<JsonValue, DomainScanError>) -> Result<JsonSpec, ErrorSpec> {
    match r {
        Ok(v) => Ok(json_view(v)),
        Err(e) => Err(e@),
    }
}

/// Checks raw JSON input and parses it: it is refused when it exceeds
/// `MAX_JSON_SIZE` bytes (without being parsed), when it does not parse, and
/// when it nests deeper than `MAX_JSON_DEPTH` levels.
pub fn validate_json_input(input: &str) -> (r: Result<JsonValue, DomainScanError>)
    requires
        4 * input@.len() <= usize::MAX,
    ensures
        json_result_view(r) == json_input_outcome(input@, parsed_json(input@)),
{
    let len = byte_len(input);
    if len > MAX_JSON_SIZE {
        return Err(json_size_error(len));
    }
    let parsed = parse_json_text(input);
    proof {
        if parsed is Ok {
            lemma_depth_view(parsed->Ok_0);
        }
    }
    check_json_input(input, parsed)
}

/// The same checks as `validate_json_input`, under the name the command
/// line uses.
pub fn parse_json_input(input: &str) -> (r: Result<JsonValue, DomainScanError>)
    requires
        4 * input@.len() <= usize::MAX,
    ensures
        json_result_view(r) == json_input_outcome(input@, parsed_json(input@)),
{
    validate_json_input(input)
}


/// What the command line makes of a `--json` payload for `command`, given
/// what the parser makes of it: refused when over `MAX_JSON_SIZE` bytes
/// (before parsing), when it does not parse (pointing at the command's
/// schema), or when nested deeper than `MAX_JSON_DEPTH` levels (scalars
/// count 0, containers one more than their deepest element); else the
/// parsed content.
pub open spec fn payload_outcome(raw: Seq<char>, command: Seq<char>, parsed: Result<JsonSpec, Seq<char>>) -> Result<
    JsonSpec,
    Seq<char>,
> {
    if utf8_len(raw) > MAX_JSON_SIZE {
        Err("JSON input is "@ + dec(utf8_len(raw)) + " bytes, exceeds maximum of 1048576 bytes (1 MB)"@)
    } else {
        match parsed {
            Err(m) => Err(
                "Invalid JSON syntax: "@ + m + ". Run `domain-scan schema "@ + command + "` to see expected structure"@,
            ),
            Ok(j) => if spec_depth(j) > MAX_JSON_DEPTH {
                Err(
                    "JSON nesting depth is "@ + dec(
                        if spec_depth(j) > usize::MAX {
                            usize::MAX as nat
                        } else {
                            spec_depth(j)
                        },
                    ) + ", exceeds maximum of 32"@,
                )
            } else {
                Ok(j)
            },
        }
    }
}

/// A payload check's result, by content.
pub open spec fn payload_result_view(r: Result<JsonValue, String>) -> Result<JsonSpec, Seq<char>> {
    match r {
        Ok(v) => Ok(json_view(v)),
        Err(m) => Err(m@),
    }
}

/// Checks and parses the `--json` payload of a command: its size, its
/// syntax and its nesting depth, with the command line's messages.
pub fn check_json_payload(raw: &str, command: &str) -> (r: Result<JsonValue, String>)
    requires
        4 * raw@.len() <= usize::MAX,
    ensures
        payload_result_view(r) == payload_outcome(raw@, command@, parsed_json(raw@)),
{
    let len = byte_len(raw);
    if len > MAX_JSON_SIZE {
        let mut m = string_of(&chars_of("JSON input is "));
        append_str(&mut m, decimal(len as u64).as_str());
        append_str(&mut m, " bytes, exceeds maximum of 1048576 bytes (1 MB)");
        return Err(m);
    }
    match parse_json_text(raw) {
        Err(e) => {
            let mut m = string_of(&chars_of("Invalid JSON syntax: "));
            append_str(&mut m, e.as_str());
            append_str(&mut m, ". Run `domain-scan schema ");
            append_str(&mut m, command);
            append_str(&mut m, "` to see expected structure");
            Err(m)
        },
        Ok(v) => {
            proof {
                lemma_depth_view(v);
            }
            let depth = json_depth(&v);
            if depth > MAX_JSON_DEPTH {
                let mut m = string_of(&chars_of("JSON nesting depth is "));
                append_str(&mut m, decimal(depth as u64).as_str());
                append_str(&mut m, ", exceeds maximum of 32");
                Err(m)
            } else {
                Ok(v)
            }
        },
    }
}

/// The string check rejects exactly the control characters below 0x20
/// other than newline and tab, NUL included, and reports the first one.
pub proof fn lemma_first_bad_exact(s: Seq<char>)
    ensures
        match first_bad(s) {
            None => forall|i: int|
                0 <= i < s.len() ==> !((#[trigger] s[i] as u32) < 0x20 && s[i] != '\n' && s[i] != '\t'),
            Some(k) => 0 <= k < s.len() && (s[k] as u32) < 0x20 && s[k] != '\n' && s[k] != '\t' && forall|i: int|
                0 <= i < k ==> !((#[trigger] s[i] as u32) < 0x20 && s[i] != '\n' && s[i] != '\t'),
        },
    decreases s.len(),
{
    if s.len() > 0 {
        let init = s.drop_last();
        lemma_first_bad_exact(init);
        assert forall|i: int| 0 <= i < s.len() - 1 implies s[i] == #[trigger] init[i] by {}
        assert(s[s.len() - 1] == s.last());
        match first_bad(init) {
            Some(k) => {
                assert(s[k] == init[k]);
                assert forall|i: int| 0 <= i < k implies !((#[trigger] s[i] as u32) < 0x20 && s[i] != '\n' && s[i] != '\t') by {
                    assert(s[i] == init[i]);
                }
            },
            None => {
                assert forall|i: int| 0 <= i < s.len() - 1 implies !((#[trigger] s[i] as u32) < 0x20 && s[i] != '\n' && s[i] != '\t') by {
                    assert(s[i] == init[i]);
                }
            },
        }
    }
}

proof fn lemma_pieces_parent(ps: Seq<Seq<char>>)
    ensures
        crate::path::comps_of_pieces(ps).contains(Comp::Parent) <==> ps.contains(seq!['.', '.']),
    decreases ps.len(),
{
    if ps.len() > 0 {
        let init = ps.drop_last();
        lemma_pieces_parent(init);
        let a = crate::path::comps_of_pieces(init);
        let b = crate::path::comp_of_piece(ps.last());
        let c = crate::path::comps_of_pieces(ps);
        assert(c == a + b);
        if c.contains(Comp::Parent) {
            let k = choose|k: int| 0 <= k < c.len() && c[k] == Comp::Parent;
            if k < a.len() {
                assert(a[k] == Comp::Parent);
                let q = choose|q: int| 0 <= q < init.len() && init[q] == seq!['.', '.'];
                assert(ps[q] == init[q]);
            } else {
                assert(b[k - a.len()] == Comp::Parent);
                assert(ps.last() == seq!['.', '.']);
                assert(ps[ps.len() - 1] == ps.last());
            }
        }
        if ps.contains(seq!['.', '.']) {
            let q = choose|q: int| 0 <= q < ps.len() && ps[q] == seq!['.', '.'];
            if q < ps.len() - 1 {
                assert(init[q] == ps[q]);
                assert(init.contains(seq!['.', '.']));
                let k = choose|k: int| 0 <= k < a.len() && a[k] == Comp::Parent;
                assert(c[k] == Comp::Parent);
            } else {
                assert(ps.last() == seq!['.', '.']);
                assert(b == seq![Comp::Parent]);
                assert(c[a.len() as int] == Comp::Parent);
            }
        }
    }
}

/// A path passes the precheck only when it holds no NUL, is at most 4096
/// bytes long, and has no `..` segment between slashes; it is then
/// resolved by joining it to the base directory.
pub proof fn lemma_path_precheck_ok(input: Seq<char>, base: Seq<char>, output: bool)
    requires
        spec_path_precheck(input, base, output) is Ok,
    ensures
        !input.contains('\0'),
        utf8_len(input) <= MAX_PATH_LEN,
        forall|i: int|
            1 <= i < crate::path::split_on(input, '/').len() ==> #[trigger] crate::path::split_on(input, '/')[i]
                != seq!['.', '.'],
        !crate::path::is_absolute(input) ==> crate::path::split_on(input, '/')[0] != seq!['.', '.'],
        spec_path_precheck(input, base, output) == Ok::<Seq<char>, ErrorSpec>(join(base, input)),
{
    let ps = crate::path::split_on(input, '/');
    crate::path::lemma_split_on_nonempty(input, '/');
    assert(!components(input).contains(Comp::Parent));
    if crate::path::is_absolute(input) {
        lemma_pieces_parent(ps.drop_first());
        assert(components(input) == seq![Comp::Root] + crate::path::comps_of_pieces(ps.drop_first()));
        assert forall|i: int| 1 <= i < ps.len() implies #[trigger] ps[i] != seq!['.', '.'] by {
            if ps[i] == seq!['.', '.'] {
                assert(ps.drop_first()[i - 1] == ps[i]);
                let k = choose|k: int| 0 <= k < crate::path::comps_of_pieces(ps.drop_first()).len()
                    && crate::path::comps_of_pieces(ps.drop_first())[k] == Comp::Parent;
                assert(components(input)[k + 1] == Comp::Parent);
            }
        }
    } else if ps[0] == crate::path::dot() {
        lemma_pieces_parent(ps.drop_first());
        assert(components(input) == seq![Comp::Cur] + crate::path::comps_of_pieces(ps.drop_first()));
        assert forall|i: int| 1 <= i < ps.len() implies #[trigger] ps[i] != seq!['.', '.'] by {
            if ps[i] == seq!['.', '.'] {
                assert(ps.drop_first()[i - 1] == ps[i]);
                let k = choose|k: int| 0 <= k < crate::path::comps_of_pieces(ps.drop_first()).len()
                    && crate::path::comps_of_pieces(ps.drop_first())[k] == Comp::Parent;
                assert(components(input)[k + 1] == Comp::Parent);
            }
        }
        assert(seq!['.'].len() != seq!['.', '.'].len());
    } else {
        lemma_pieces_parent(ps);
        assert(components(input) == crate::path::comps_of_pieces(ps));
        assert forall|i: int| 0 <= i < ps.len() implies #[trigger] ps[i] != seq!['.', '.'] by {
            if ps[i] == seq!['.', '.'] {
                assert(ps.contains(seq!['.', '.']));
            }
        }
    }
}

} // verus!
