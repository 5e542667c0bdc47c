//! Compilation errors, their labels, and the target languages of the compiler.
use vstd::prelude::*;
use vstd::utf8::encode_utf8;

use crate::schema::Span;

verus! {

/// The color a label of an error is shown in.
#[derive(Debug, Clone, Copy, PartialEq, Eq, Structural)]
pub enum LabelColor {
    Blue,
    Red,
}

/// The target language of code generation; map key rules depend on it.
#[derive(Debug, Clone, Copy, PartialEq, Eq, Structural)]
pub enum Language {
    Rust,
    Go,
    Typescript,
}

/// A label of an error, as plain values.
pub type LabelView = (Span, Seq<char>, LabelColor);

/// A compilation error, as plain values.
pub struct ErrorView {
    pub span: Span,
    pub message: Seq<char>,
    pub labels: Seq<LabelView>,
    pub notes: Seq<Seq<char>>,
}

/// An error with the given message and labels and no notes; its span is that of its first
/// label (`0..0` when it has none).
pub open spec fn error_with(message: Seq<char>, labels: Seq<LabelView>) -> ErrorView {
    ErrorView {
        span: if labels.len() > 0 {
            labels[0].0
        } else {
            Span { start: 0, end: 0 }
        },
        message,
        labels,
        notes: Seq::empty(),
    }
}

/// The view of a label.
pub open spec fn label_view(l: (Span, String, LabelColor)) -> LabelView {
    (l.0, l.1@, l.2)
}

#[derive(Debug)]
pub struct CompileError {
    pub span: Span,
    pub message: String,
    pub labels: Vec<(Span, String, LabelColor)>,
    pub notes: Vec<String>,
}

impl View for CompileError {
    type V = ErrorView;

    open spec fn view(&self) -> ErrorView {
        ErrorView {
            span: self.span,
            message: self.message@,
            labels: self.labels@.map_values(|l: (Span, String, LabelColor)| label_view(l)),
            notes: self.notes@.map_values(|n: String| n@),
        }
    }
}

/// The views of a sequence of errors.
pub open spec fn errors_view(errors: Seq<CompileError>) -> Seq<ErrorView> {
    errors.map_values(|e: CompileError| e@)
}

impl CompileError {
    pub fn new(message: String) -> (r: Self)
        ensures
            r@ == error_with(message@, Seq::empty()),
    {
        let r = Self { span: Span::new(0, 0), message, labels: Vec::new(), notes: Vec::new() };
        assert(r@.labels =~= Seq::<LabelView>::empty());
        assert(r@.notes =~= Seq::<Seq<char>>::empty());
        r
    }

    /// Adds a label; the first label's span becomes the primary error span.
    pub fn label(self, span: Span, message: String, color: LabelColor) -> (r: Self)
        ensures
            r@ == (ErrorView {
                span: if self@.labels.len() == 0 {
                    span
                } else {
                    self@.span
                },
                labels: self@.labels.push((span, message@, color)),
                ..self@
            }),
    {
        let mut s = self;
        // Use the first label's span as the primary error span
        if s.labels.len() == 0 {
            s.span = span;
        }
        let ghost before = s.labels@;
        s.labels.push((span, message, color));
        assert(s.labels@.map_values(|l: (Span, String, LabelColor)| label_view(l)) =~= before.map_values(
            |l: (Span, String, LabelColor)| label_view(l),
        ).push((span, s.labels@.last().1@, color)));
        s
    }

    pub fn note(self, note: String) -> (r: Self)
        ensures
            r@ == (ErrorView { notes: self@.notes.push(note@), ..self@ }),
    {
        let mut s = self;
        let ghost before = s.notes@;
        s.notes.push(note);
        assert(s.notes@.map_values(|n: String| n@) =~= before.map_values(|n: String| n@).push(
            s.notes@.last()@,
        ));
        s
    }
}

/// An error with a message and labels, built as `new` followed by `label` for each.
pub fn error_from_labels(message: String, labels: Vec<(Span, String, LabelColor)>) -> (r:
    CompileError)
    ensures
        r@ == error_with(message@, labels@.map_values(|l: (Span, String, LabelColor)| label_view(l))),
{
    let mut err = CompileError::new(message);
    let ghost lv = labels@.map_values(|l: (Span, String, LabelColor)| label_view(l));
    let mut labels = labels;
    let n = labels.len();
    assert(lv.len() == n);
    let mut rest: Vec<(Span, String, LabelColor)> = Vec::new();
    // Labels are taken from the back; put them back in order first.
    while labels.len() > 0
        invariant
            labels@.len() + rest@.len() == lv.len(),
            forall|i: int| 0 <= i < labels@.len() ==> label_view(#[trigger] labels@[i]) == lv[i],
            forall|i: int|
                0 <= i < rest@.len() ==> label_view(#[trigger] rest@[i]) == lv[lv.len() - 1 - i],
        decreases labels@.len(),
    {
        let l = labels.pop().unwrap();
        rest.push(l);
    }
    let mut k: usize = 0;
    assert(lv.take(0) =~= Seq::<LabelView>::empty());
    while rest.len() > 0
        invariant
            lv.len() == n,
            k + rest@.len() == lv.len(),
            forall|i: int|
                0 <= i < rest@.len() ==> label_view(#[trigger] rest@[i]) == lv[lv.len() - 1 - i],
            err@ == error_with(message@, lv.take(k as int)),
        decreases rest@.len(),
    {
        let (span, msg, color) = rest.pop().unwrap();
        assert(label_view((span, msg, color)) == lv[k as int]);
        err = err.label(span, msg, color);
        assert(lv.take(k + 1) =~= lv.take(k as int).push(lv[k as int]));
        k = k + 1;
    }
    assert(lv.take(k as int) =~= lv);
    err
}

/// `text` with ASCII uppercase letters lowered.
pub open spec fn ascii_lowercase(text: Seq<u8>) -> Seq<u8> {
    text.map_values(|b: u8| if 65 <= b <= 90 { (b + 32) as u8 } else { b })
}

/// The language a (case-insensitive) name stands for.
pub open spec fn spec_language_named(name: Seq<u8>) -> Option<Language> {
    if ascii_lowercase(name) == encode_utf8("rust"@) {
        Some(Language::Rust)
    } else if ascii_lowercase(name) == encode_utf8("go"@) {
        Some(Language::Go)
    } else if ascii_lowercase(name) == encode_utf8("typescript"@) {
        Some(Language::Typescript)
    } else {
        None
    }
}

/// Whether `text`, with ASCII letters lowered, is `lower`.
fn eq_lowercase(text: &[u8], lower: &[u8]) -> (r: bool)
    ensures
        r == (ascii_lowercase(text@) == lower@),
{
    if text.len() != lower.len() {
        assert(ascii_lowercase(text@).len() != lower@.len());
        return false;
    }
    let mut i: usize = 0;
    while i < text.len()
        invariant
            text@.len() == lower@.len(),
            i <= text@.len(),
            forall|j: int| 0 <= j < i ==> ascii_lowercase(text@)[j] == lower@[j],
        decreases text.len() - i,
    {
        let b = text[i];
        let l = if 65 <= b && b <= 90 {
            b + 32
        } else {
            b
        };
        if l != lower[i] {
            assert(ascii_lowercase(text@)[i as int] != lower@[i as int]);
            return false;
        }
        i = i + 1;
    }
    assert(ascii_lowercase(text@) =~= lower@);
    true
}

impl Language {
    /// Parses a language name, ignoring case.
    pub fn parse(s: &str) -> (r: Result<Language, String>)
        ensures
            r matches Ok(l) ==> spec_language_named(encode_utf8(s@)) == Some(l),
            r matches Err(m) ==> spec_language_named(encode_utf8(s@)) is None && m@
                == "Unknown language: "@ + s@,
    {
        let bytes = s.as_bytes();
        if eq_lowercase(bytes, "rust".as_bytes()) {
            Ok(Language::Rust)
        } else if eq_lowercase(bytes, "go".as_bytes()) {
            Ok(Language::Go)
        } else if eq_lowercase(bytes, "typescript".as_bytes()) {
            Ok(Language::Typescript)
        } else {
            let mut m = String::from_str("Unknown language: ");
            m.append(s);
            Err(m)
        }
    }
}

impl core::str::FromStr for Language {
    type Err = String;

    fn from_str(s: &str) -> (r: Result<Self, Self::Err>)
        ensures
            r matches Ok(l) ==> spec_language_named(encode_utf8(s@)) == Some(l),
            r matches Err(m) ==> spec_language_named(encode_utf8(s@)) is None && m@
                == "Unknown language: "@ + s@,
    {
        Language::parse(s)
    }
}

} // verus!
