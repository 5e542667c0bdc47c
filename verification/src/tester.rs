//! The logic of the test runners: transports and languages under test, which client and
//! server pairs run, reading test data, judging and counting the checks of a suite, and
//! putting type names in order.
use vstd::prelude::*;
use vstd::string::{StrSliceExecFns, StringSliceAdditionalSpecFns};
use vstd::utf8::encode_utf8;

use base64::Engine;

use crate::diagnostics::Language;
use crate::text::{lemma_text_lt_order, push_decimal, spec_decimal, str_eq, str_lt, text_lt};

verus! {

/// The transport an RPC test runs over.
#[derive(Debug, Clone, Copy, PartialEq, Eq, Structural)]
pub enum Transport {
    Tcp,
    Http,
}

impl Transport {
    /// The transport's name on command lines.
    pub fn as_str(&self) -> (r: &'static str)
        ensures
            r@ == (match self {
                Transport::Tcp => "tcp"@,
                Transport::Http => "http"@,
            }),
    {
        match self {
            Transport::Tcp => "tcp",
            Transport::Http => "http",
        }
    }

    /// The transport's name in reports.
    pub fn name(&self) -> (r: &'static str)
        ensures
            r@ == (match self {
                Transport::Tcp => "TCP"@,
                Transport::Http => "HTTP"@,
            }),
    {
        match self {
            Transport::Tcp => "TCP",
            Transport::Http => "HTTP",
        }
    }
}

/// A language's name on command lines and in test data.
pub open spec fn language_str(language: Language) -> Seq<char> {
    match language {
        Language::Rust => "rust"@,
        Language::Go => "go"@,
        Language::Typescript => "typescript"@,
    }
}

impl Language {
    /// The language's name on command lines and in test data.
    pub fn as_str(&self) -> (r: &'static str)
        ensures
            r@ == language_str(*self),
    {
        match self {
            Language::Rust => "rust",
            Language::Go => "go",
            Language::Typescript => "typescript",
        }
    }

    /// The language's name in reports.
    pub fn name(&self) -> (r: &'static str)
        ensures
            r@ == (match self {
                Language::Rust => "Rust"@,
                Language::Go => "Go"@,
                Language::Typescript => "TypeScript"@,
            }),
    {
        match self {
            Language::Rust => "Rust",
            Language::Go => "Go",
            Language::Typescript => "TypeScript",
        }
    }
}

/// The client languages that RPC tests cover.
pub open spec fn client_languages() -> Seq<Language> {
    seq![Language::Go, Language::Rust, Language::Typescript]
}

/// The server languages that RPC tests cover.
pub open spec fn server_languages() -> Seq<Language> {
    seq![Language::Go, Language::Rust]
}

/// The client and server pairs an RPC test run covers: every client with every server, client
/// by client, when all are asked for; otherwise the one pair given.
pub open spec fn spec_test_pairs(all: bool, client: Option<Language>, server: Option<Language>) -> Seq<
    (Language, Language),
> {
    if all {
        Seq::new(6, |k: int| (client_languages()[k / 2], server_languages()[k % 2]))
    } else {
        seq![(client->0, server->0)]
    }
}

/// The client and server pairs an RPC test run covers.
pub fn test_pairs(all: bool, client: Option<Language>, server: Option<Language>) -> (r: Vec<
    (Language, Language),
>)
    requires
        !all ==> client is Some && server is Some,
    ensures
        r@ == spec_test_pairs(all, client, server),
{
    if all {
        let clients = [Language::Go, Language::Rust, Language::Typescript];
        let servers = [Language::Go, Language::Rust];
        let mut pairs: Vec<(Language, Language)> = Vec::new();
        let mut i: usize = 0;
        while i < 3
            invariant
                i <= 3,
                clients@ == client_languages(),
                servers@ == server_languages(),
                pairs@ == spec_test_pairs(true, client, server).take(2 * i),
            decreases 3 - i,
        {
            let mut j: usize = 0;
            while j < 2
                invariant
                    i < 3,
                    j <= 2,
                    clients@ == client_languages(),
                    servers@ == server_languages(),
                    pairs@ == spec_test_pairs(true, client, server).take(2 * i + j),
                decreases 2 - j,
            {
                pairs.push((clients[i], servers[j]));
                assert(spec_test_pairs(true, client, server).take(2 * i + j + 1)
                    =~= spec_test_pairs(true, client, server).take(2 * i + j).push(
                    (clients@[i as int], servers@[j as int]),
                ));
                j = j + 1;
            }
            i = i + 1;
        }
        assert(spec_test_pairs(true, client, server).take(6) =~= spec_test_pairs(
            true,
            client,
            server,
        ));
        pairs
    } else {
        let pairs = vec![(client.unwrap(), server.unwrap())];
        assert(pairs@ =~= spec_test_pairs(all, client, server));
        pairs
    }
}

/// Whether a flag is off (such fields are left out of written test data).
pub fn is_false(b: &bool) -> (r: bool)
    ensures
        r == !*b,
{
    !*b
}

/// Whether a list is empty (such fields are left out of written test data).
pub fn is_empty_vec(v: &Vec<String>) -> (r: bool)
    ensures
        r == (v@.len() == 0),
{
    v.len() == 0
}

/// Hex text without its spaces.
pub fn strip_spaces(hex: &str) -> (r: String)
    ensures
        r@ == hex@.filter(|c: char| c != ' '),
{
    let n = hex.unicode_len();
    let mut out = String::new();
    let mut i: usize = 0;
    proof {
        reveal(Seq::filter);
        assert(hex@.take(0).filter(|c: char| c != ' ') =~= Seq::<char>::empty());
    }
    while i < n
        invariant
            n == hex@.len(),
            i <= n,
            out@ == hex@.take(i as int).filter(|c: char| c != ' '),
        decreases n - i,
    {
        let c = hex.get_char(i);
        assert(hex@.take(i + 1) =~= hex@.take(i as int).push(c));
        proof {
            reveal(Seq::filter);
            assert(hex@.take(i + 1).drop_last() =~= hex@.take(i as int));
        }
        if c != ' ' {
            out.append(hex.substring_char(i, i + 1));
            assert(hex@.subrange(i as int, i + 1) =~= seq![c]);
        }
        i = i + 1;
    }
    assert(hex@.take(n as int) =~= hex@);
    out
}

/// What a JSON value of test data holds, as far as reading bytes from it goes: a string, an
/// array whose elements are unsigned integers (`None` for an element that is not), or
/// anything else.
#[derive(Debug)]
pub enum JsonBytes {
    Text(String),
    Numbers(Vec<Option<u64>>),
    Other,
}

/// What decoding text as standard base64 (with padding) gives, `None` for text that is not.
pub uninterp spec fn base64_standard_decode(text: Seq<u8>) -> Option<Seq<u8>>;

/// `base64::engine::general_purpose::STANDARD.decode`: the bytes that text encodes in standard
/// base64, or `None` when it is not valid base64. What it accepts and gives is left to the name
/// [`base64_standard_decode`].
#[verifier::external_body]
fn base64_decode(text: &str) -> (r: Option<Vec<u8>>)
    ensures
        match base64_standard_decode(text.spec_bytes()) {
            Some(b) => r matches Some(v) && v@ == b,
            None => r is None,
        },
{
    base64::engine::general_purpose::STANDARD.decode(text).ok()
}

/// The bytes a JSON value of test data stands for: a string is read as base64, an array as
/// its elements, each an integer up to 255.
pub open spec fn spec_try_as_bytes_numbers(ns: Seq<Option<u64>>) -> Option<Seq<u8>> {
    if forall|i: int| 0 <= i < ns.len() ==> ((#[trigger] ns[i]) matches Some(n) && n <= 255) {
        Some(ns.map_values(|o: Option<u64>| o->0 as u8))
    } else {
        None
    }
}

/// Reads bytes from a JSON value of test data: a string as base64, an array of integers up
/// to 255 as its elements; `None` otherwise.
pub fn try_as_bytes(v: &JsonBytes) -> (r: Option<Vec<u8>>)
    ensures
        match v {
            JsonBytes::Text(s) => match base64_standard_decode(encode_utf8(s@)) {
                Some(b) => r matches Some(x) && x@ == b,
                None => r is None,
            },
            JsonBytes::Numbers(ns) => match spec_try_as_bytes_numbers(ns@) {
                Some(b) => r matches Some(x) && x@ == b,
                None => r is None,
            },
            JsonBytes::Other => r is None,
        },
{
    match v {
        JsonBytes::Text(s) => base64_decode(s.as_str()),
        JsonBytes::Numbers(ns) => {
            let mut bytes: Vec<u8> = Vec::new();
            let mut i: usize = 0;
            while i < ns.len()
                invariant
                    i <= ns@.len(),
                    *v == JsonBytes::Numbers(*ns),
                    forall|k: int| 0 <= k < i ==> ((#[trigger] ns@[k]) matches Some(n) && n <= 255),
                    bytes@ == ns@.take(i as int).map_values(|o: Option<u64>| o->0 as u8),
                decreases ns.len() - i,
            {
                match ns[i] {
                    Some(n) => {
                        if n > 255 {
                            return None;
                        }
                        bytes.push(n as u8);
                        assert(ns@.take(i + 1).map_values(|o: Option<u64>| o->0 as u8)
                            =~= ns@.take(i as int).map_values(|o: Option<u64>| o->0 as u8).push(
                            n as u8,
                        ));
                    },
                    None => {
                        return None;
                    },
                }
                i = i + 1;
            }
            assert(ns@.take(i as int) =~= ns@);
            Some(bytes)
        },
        JsonBytes::Other => None,
    }
}


// ============================================================================
// Running a suite of test cases
// ============================================================================
/// Whether a test case is skipped for a language: its list of languages to skip names it.
pub fn skips_language(skip_languages: &Vec<String>, language: Language) -> (r: bool)
    ensures
        r == exists|i: int|
            0 <= i < skip_languages@.len() && (#[trigger] skip_languages@[i])@ == language_str(
                language,
            ),
{
    let name = language.as_str();
    let mut i: usize = 0;
    while i < skip_languages.len()
        invariant
            i <= skip_languages@.len(),
            name@ == language_str(language),
            forall|k: int| 0 <= k < i ==> (#[trigger] skip_languages@[k])@ != language_str(language),
        decreases skip_languages.len() - i,
    {
        if str_eq(skip_languages[i].as_str(), name) {
            return true;
        }
        i = i + 1;
    }
    false
}

/// How an encoding is checked against a test case.
#[derive(Debug, Clone, Copy, PartialEq, Eq, Structural)]
pub enum EncodeCheck {
    /// It is the expected hex.
    Pass,
    /// It is not the expected hex.
    Fail,
    /// The encoding may differ from run to run: it is checked by decoding it again and
    /// comparing the value with the expected one.
    Roundtrip,
}

/// How to judge an encoding of a test case's value: by decoding it again when the case's
/// encoding is not deterministic, else by comparing it with the expected hex.
pub fn encode_check(nondeterministic: bool, expected_hex: &str, encoded_hex: &str) -> (r: EncodeCheck)
    ensures
        r == (if nondeterministic {
            EncodeCheck::Roundtrip
        } else if encoded_hex@ == expected_hex@ {
            EncodeCheck::Pass
        } else {
            EncodeCheck::Fail
        }),
{
    if nondeterministic {
        EncodeCheck::Roundtrip
    } else if str_eq(encoded_hex, expected_hex) {
        EncodeCheck::Pass
    } else {
        EncodeCheck::Fail
    }
}

/// The counts of a run: checks passed and failed, and hex values written anew.
#[derive(Debug, Clone, Copy, PartialEq, Eq, Structural)]
pub struct Tally {
    pub passed: u64,
    pub failed: u64,
    pub regenerated: u64,
}

impl Tally {
    /// No checks yet.
    pub fn new() -> (r: Tally)
        ensures
            r == (Tally { passed: 0, failed: 0, regenerated: 0 }),
    {
        Tally { passed: 0, failed: 0, regenerated: 0 }
    }

    /// Counts one check, passed or failed.
    pub fn record(&mut self, passed: bool)
        requires
            passed ==> old(self).passed < u64::MAX,
            !passed ==> old(self).failed < u64::MAX,
        ensures
            *final(self) == (if passed {
                Tally { passed: (old(self).passed + 1) as u64, ..*old(self) }
            } else {
                Tally { failed: (old(self).failed + 1) as u64, ..*old(self) }
            }),
    {
        if passed {
            self.passed = self.passed + 1;
        } else {
            self.failed = self.failed + 1;
        }
    }

    /// Counts one hex value written anew.
    pub fn record_regenerated(&mut self)
        requires
            old(self).regenerated < u64::MAX,
        ensures
            *final(self) == (Tally { regenerated: (old(self).regenerated + 1) as u64, ..*old(self) }),
    {
        self.regenerated = self.regenerated + 1;
    }
}

/// The outcome of checking a suite: success when no check failed, else how many did.
pub fn run_verdict(tally: &Tally) -> (r: Result<(), String>)
    ensures
        tally.failed == 0 ==> r is Ok,
        tally.failed > 0 ==> (r matches Err(m) && m@ == spec_decimal(tally.failed as nat)
            + " tests failed"@),
{
    if tally.failed == 0 {
        Ok(())
    } else {
        let mut m = String::new();
        push_decimal(&mut m, tally.failed);
        m.append(" tests failed");
        Err(m)
    }
}

// ============================================================================
// Names in order, each once
// ============================================================================
/// Each string comes before the next, in the order of their bytes: they are in order and
/// none repeats.
pub open spec fn strictly_sorted(s: Seq<String>) -> bool {
    forall|i: int, j: int| 0 <= i < j < s.len() ==> text_lt(#[trigger] s[i]@, #[trigger] s[j]@)
}

/// Whether `s` holds a string with the text `x`.
pub open spec fn holds_text(s: Seq<String>, x: Seq<char>) -> bool {
    exists|i: int| 0 <= i < s.len() && (#[trigger] s[i])@ == x
}

proof fn lemma_holds_push(s: Seq<String>, e: String, x: Seq<char>)
    ensures
        holds_text(s.push(e), x) <==> holds_text(s, x) || e@ == x,
{
    if holds_text(s, x) {
        let i = choose|i: int| 0 <= i < s.len() && (#[trigger] s[i])@ == x;
        assert(s.push(e)[i] == s[i]);
    }
    if e@ == x {
        assert(s.push(e)[s.len() as int] == e);
    }
    if holds_text(s.push(e), x) {
        let i = choose|i: int| 0 <= i < s.push(e).len() && (#[trigger] s.push(e)[i])@ == x;
        if i < s.len() {
            assert(s[i] == s.push(e)[i]);
        }
    }
}

proof fn lemma_holds_insert(s: Seq<String>, p: int, e: String, x: Seq<char>)
    requires
        0 <= p <= s.len(),
    ensures
        holds_text(s.insert(p, e), x) <==> holds_text(s, x) || e@ == x,
{
    let t = s.insert(p, e);
    if holds_text(s, x) {
        let i = choose|i: int| 0 <= i < s.len() && (#[trigger] s[i])@ == x;
        if i < p {
            assert(t[i] == s[i]);
        } else {
            assert(t[i + 1] == s[i]);
        }
    }
    if e@ == x {
        assert(t[p] == e);
    }
    if holds_text(t, x) {
        let i = choose|i: int| 0 <= i < t.len() && (#[trigger] t[i])@ == x;
        if i < p {
            assert(s[i] == t[i]);
        } else if i > p {
            assert(s[i - 1] == t[i]);
        }
    }
}

proof fn lemma_insert_sorted(s: Seq<String>, p: int, e: String)
    requires
        strictly_sorted(s),
        0 <= p <= s.len(),
        forall|k: int| 0 <= k < p ==> text_lt((#[trigger] s[k])@, e@),
        p < s.len() ==> text_lt(e@, s[p]@),
    ensures
        strictly_sorted(s.insert(p, e)),
{
    let t = s.insert(p, e);
    assert forall|i: int, j: int| 0 <= i < j < t.len() implies text_lt(
        #[trigger] t[i]@,
        #[trigger] t[j]@,
    ) by {
        if j < p {
            assert(t[i] == s[i] && t[j] == s[j]);
        } else if j == p {
            assert(t[i] == s[i] && t[j] == e);
        } else if i < p {
            assert(t[i] == s[i] && t[j] == s[j - 1]);
        } else if i == p {
            assert(t[j] == s[j - 1]);
            if j - 1 > p {
                assert(text_lt(s[p]@, s[j - 1]@));
                lemma_text_lt_order(e@, s[p]@, s[j - 1]@);
            }
        } else {
            assert(t[i] == s[i - 1] && t[j] == s[j - 1]);
        }
    }
}

/// The distinct strings of `names`, in the order of their bytes.
pub fn sorted_unique(names: &Vec<String>) -> (r: Vec<String>)
    ensures
        strictly_sorted(r@),
        forall|x: Seq<char>| holds_text(r@, x) <==> holds_text(names@, x),
{
    let mut out: Vec<String> = Vec::new();
    let mut j: usize = 0;
    while j < names.len()
        invariant
            j <= names@.len(),
            strictly_sorted(out@),
            forall|x: Seq<char>| holds_text(out@, x) <==> holds_text(names@.take(j as int), x),
        decreases names.len() - j,
    {
        let name = &names[j];
        let mut p: usize = 0;
        while p < out.len() && str_lt(out[p].as_str(), name.as_str())
            invariant
                p <= out@.len(),
                forall|k: int| 0 <= k < p ==> text_lt((#[trigger] out@[k])@, name@),
            decreases out.len() - p,
        {
            p = p + 1;
        }
        proof {
            assert(names@.take(j + 1) =~= names@.take(j as int).push(names@[j as int]));
            assert forall|x: Seq<char>| holds_text(names@.take(j + 1), x) <==> holds_text(
                names@.take(j as int),
                x,
            ) || name@ == x by {
                lemma_holds_push(names@.take(j as int), names@[j as int], x);
            }
        }
        let ghost before = out@;
        if p < out.len() && str_eq(out[p].as_str(), name.as_str()) {
            proof {
                assert(holds_text(out@, name@)) by {
                    assert(out@[p as int]@ == name@);
                }
            }
        } else {
            proof {
                if p < out@.len() {
                    lemma_text_lt_order(out@[p as int]@, name@, name@);
                }
                lemma_insert_sorted(before, p as int, *name);
            }
            out.insert(p, name.clone());
            proof {
                assert forall|x: Seq<char>| holds_text(out@, x) <==> holds_text(before, x)
                    || name@ == x by {
                    lemma_holds_insert(before, p as int, *name, x);
                }
            }
        }
        proof {
            assert forall|x: Seq<char>| holds_text(out@, x) <==> holds_text(
                names@.take(j + 1),
                x,
            ) by {
                assert(holds_text(before, x) <==> holds_text(names@.take(j as int), x));
                assert(holds_text(names@.take(j + 1), x) <==> holds_text(names@.take(j as int), x)
                    || name@ == x);
                if name@ == x {
                    assert(holds_text(out@, x));
                }
            }
        }
        j = j + 1;
    }
    assert(names@.take(names@.len() as int) =~= names@);
    out
}

} // verus!
