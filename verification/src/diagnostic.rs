//! Diagnostics: messages with labelled spans, and their rendering.

use ariadne::{sources, Color, Label as ReportLabel, Report, ReportKind};
use vstd::prelude::*;

use crate::span::Span;
use crate::text::{join_strings, owned};
use crate::{model, text};

verus! {

broadcast use crate::model::group_model;

/// A span of source text with an optional remark.
#[derive(Debug)]
pub struct Label {
    pub span: Span,
    pub message: Option<String>,
}

/// The content of a [`Label`].
pub struct LabelView {
    pub span: Span,
    pub message: Option<Seq<char>>,
}

impl View for Label {
    type V = LabelView;

    open spec fn view(&self) -> LabelView {
        LabelView { span: self.span, message: model::opt(self.message) }
    }
}

impl Label {
    /// A label without a remark.
    pub fn new(span: Span) -> (r: Self)
        ensures
            r@ == (LabelView { span, message: None }),
    {
        Self { span, message: None }
    }

    /// A label with a remark.
    pub fn with_message(span: Span, message: &str) -> (r: Self)
        ensures
            r@ == (LabelView { span, message: Some(message@) }),
    {
        Self { span, message: Some(owned(message)) }
    }
}

impl Clone for Label {
    fn clone(&self) -> (r: Self)
        ensures
            r@ == self@,
    {
        Label { span: self.span, message: clone_opt(&self.message) }
    }
}

/// Clones an optional string.
pub(crate) fn clone_opt(o: &Option<String>) -> (r: Option<String>)
    ensures
        model::opt(r) == model::opt(*o),
{
    match o {
        Some(s) => Some(s.clone()),
        None => None,
    }
}

/// How serious a diagnostic is.
#[derive(Debug, Clone, Copy, PartialEq, Eq, Structural)]
pub enum Severity {
    Error,
    Warning,
}

/// A message for the user, with the source spans it is about.
#[derive(Debug)]
pub struct Diagnostic {
    pub severity: Severity,
    pub message: String,
    pub labels: Vec<Label>,
    pub note: Option<String>,
    pub code: Option<String>,
}

/// The diagnostics of a compilation stage, in the order in which they arose.
pub type Diags = Vec<Diagnostic>;

/// The content of a [`Diagnostic`].
pub struct DiagnosticView {
    pub severity: Severity,
    pub message: Seq<char>,
    pub labels: Seq<LabelView>,
    pub note: Option<Seq<char>>,
    pub code: Option<Seq<char>>,
}

impl View for Diagnostic {
    type V = DiagnosticView;

    open spec fn view(&self) -> DiagnosticView {
        DiagnosticView {
            severity: self.severity,
            message: self.message@,
            labels: model::all(self.labels@),
            note: model::opt(self.note),
            code: model::opt(self.code),
        }
    }
}

/// An error with the given message and nothing else.
pub open spec fn error_view(message: Seq<char>) -> DiagnosticView {
    DiagnosticView {
        severity: Severity::Error,
        message,
        labels: Seq::empty(),
        note: None,
        code: None,
    }
}

impl DiagnosticView {
    /// The diagnostic with one more label.
    pub open spec fn label(self, span: Span, message: Seq<char>) -> DiagnosticView {
        DiagnosticView {
            labels: self.labels.push(LabelView { span, message: Some(message) }),
            ..self
        }
    }

    /// The diagnostic with one more label that has no remark.
    pub open spec fn bare_label(self, span: Span) -> DiagnosticView {
        DiagnosticView { labels: self.labels.push(LabelView { span, message: None }), ..self }
    }

    /// The diagnostic with the given note.
    pub open spec fn noted(self, note: Seq<char>) -> DiagnosticView {
        DiagnosticView { note: Some(note), ..self }
    }

    /// The diagnostic with the given code.
    pub open spec fn coded(self, code: Seq<char>) -> DiagnosticView {
        DiagnosticView { code: Some(code), ..self }
    }

    /// Every label's span starts no later than it ends.
    pub open spec fn ordered(self) -> bool {
        forall|i: int| 0 <= i < self.labels.len() ==> (#[trigger] self.labels[i]).span.ordered()
    }
}

/// The report that `ariadne` writes, with or without colours, for a message with
/// the given severity, code, note and labels (start, end, remark, whether it is
/// the primary one) about a file of the given name and text, placed at offset
/// `start`.
pub uninterp spec fn rendered_report(
    colour: bool,
    error: bool,
    file: Seq<char>,
    text: Seq<char>,
    start: usize,
    message: Seq<char>,
    code: Option<Seq<char>>,
    note: Option<Seq<char>>,
    labels: Seq<(usize, usize, Option<Seq<char>>, bool)>,
) -> Seq<char>;

/// The label list that a report is made of: the first label is the primary one.
pub open spec fn report_labels(labels: Seq<LabelView>) -> Seq<
    (usize, usize, Option<Seq<char>>, bool),
> {
    Seq::new(
        labels.len(),
        |i: int| (labels[i].span.start, labels[i].span.end, labels[i].message, i == 0),
    )
}

/// The label list of a report as plain values.
pub open spec fn plan_view(plan: Seq<(usize, usize, Option<String>, bool)>) -> Seq<
    (usize, usize, Option<Seq<char>>, bool),
> {
    Seq::new(plan.len(), |i: int| (plan[i].0, plan[i].1, model::opt(plan[i].2), plan[i].3))
}

/// `ariadne::Report`: builds a report of the given kind at `start` with the
/// message, code, labels (red for the primary one, yellow for the others) and
/// note, and writes it over the given source into memory. Writing to memory
/// does not fail and the written text is UTF-8. `ariadne` panics on a label
/// whose start lies after its end, so such labels are ruled out. The claim is
/// only that the text is a function of the arguments and of whether colours are
/// written, which a switch of the process decides.
#[verifier::external_body]
fn render_report(
    error: bool,
    file: &str,
    text: &str,
    start: usize,
    message: &str,
    code: &Option<String>,
    note: &Option<String>,
    labels: &Vec<(usize, usize, Option<String>, bool)>,
) -> (r: String)
    requires
        forall|i: int| 0 <= i < labels@.len() ==> (#[trigger] labels@[i]).0 <= labels@[i].1,
    ensures
        exists|colour: bool|
            r@ == #[trigger] rendered_report(
                colour,
                error,
                file@,
                text@,
                start,
                message@,
                model::opt(*code),
                model::opt(*note),
                plan_view(labels@),
            ),
{
    let kind = if error { ReportKind::Error } else { ReportKind::Warning };
    let mut b = Report::build(kind, file, start).with_message(message);
    if let Some(c) = code { b = b.with_code(c) }
    for l in labels {
        let mut r = ReportLabel::new((file.to_owned(), l.0..l.1));
        if let Some(m) = &l.2 { r = r.with_message(m) }
        b.add_label(r.with_color(if l.3 { Color::Red } else { Color::Yellow }))
    }
    if let Some(n) = note { b.set_note(n) }
    let mut out = Vec::new();
    b.finish().write(sources([(file.to_owned(), text)]), &mut out).unwrap();
    String::from_utf8(out).unwrap()
}

/// The rendered form of a diagnostic, with or without colours.
pub open spec fn rendered(
    colour: bool,
    d: DiagnosticView,
    file: Seq<char>,
    text: Seq<char>,
) -> Seq<char> {
    rendered_report(
        colour,
        d.severity == Severity::Error,
        file,
        text,
        if d.labels.len() > 0 { d.labels[0].span.start } else { 0 },
        d.message,
        d.code,
        d.note,
        report_labels(d.labels),
    )
}

impl Diagnostic {
    /// An error with the given message.
    pub fn error(message: &str) -> (r: Self)
        ensures
            r@ == error_view(message@),
    {
        Self {
            severity: Severity::Error,
            message: owned(message),
            labels: Vec::new(),
            note: None,
            code: None,
        }
    }

    /// A warning with the given message.
    pub fn warning(message: &str) -> (r: Self)
        ensures
            r@ == (DiagnosticView { severity: Severity::Warning, ..error_view(message@) }),
    {
        Self {
            severity: Severity::Warning,
            message: owned(message),
            labels: Vec::new(),
            note: None,
            code: None,
        }
    }

    /// Adds a label with a remark.
    pub fn with_label(self, span: Span, message: &str) -> (r: Self)
        ensures
            r@ == self@.label(span, message@),
    {
        let mut labels = self.labels;
        labels.push(Label::with_message(span, message));
        Diagnostic {
            severity: self.severity,
            message: self.message,
            labels,
            note: self.note,
            code: self.code,
        }
    }

    /// Adds a label without a remark.
    pub fn with_bare_label(self, span: Span) -> (r: Self)
        ensures
            r@ == self@.bare_label(span),
    {
        let mut labels = self.labels;
        labels.push(Label::new(span));
        Diagnostic {
            severity: self.severity,
            message: self.message,
            labels,
            note: self.note,
            code: self.code,
        }
    }

    /// Sets the note.
    pub fn with_note(self, note: &str) -> (r: Self)
        ensures
            r@ == self@.noted(note@),
    {
        Diagnostic {
            severity: self.severity,
            message: self.message,
            labels: self.labels,
            note: Some(owned(note)),
            code: self.code,
        }
    }

    /// Sets the code.
    pub fn with_code(self, code: &str) -> (r: Self)
        ensures
            r@ == self@.coded(code@),
    {
        Diagnostic {
            severity: self.severity,
            message: self.message,
            labels: self.labels,
            note: self.note,
            code: Some(owned(code)),
        }
    }

    /// Whether the diagnostic is an error.
    pub fn is_error(&self) -> (r: bool)
        ensures
            r == (self@.severity == Severity::Error),
    {
        self.severity == Severity::Error
    }

    /// Where the diagnostic is placed: the start of its first label.
    fn primary_start(&self) -> (r: usize)
        ensures
            r == (if self@.labels.len() > 0 { self@.labels[0].span.start } else { 0 }),
    {
        if self.labels.len() > 0 {
            self.labels[0].span.start
        } else {
            0
        }
    }

    /// The label list of the report: span ends, remark, and whether the label
    /// is the first and so the primary one.
    fn label_plan(&self) -> (r: Vec<(usize, usize, Option<String>, bool)>)
        ensures
            plan_view(r@) == report_labels(self@.labels),
    {
        let mut r: Vec<(usize, usize, Option<String>, bool)> = Vec::new();
        let mut i: usize = 0;
        while i < self.labels.len()
            invariant
                i <= self.labels@.len(),
                r@.len() == i,
                forall|k: int|
                    0 <= k < i ==> {
                        let p = #[trigger] r@[k];
                        (p.0, p.1, model::opt(p.2), p.3) == report_labels(self@.labels)[k]
                    },
            decreases self.labels@.len() - i,
        {
            let l = &self.labels[i];
            r.push((l.span.start, l.span.end, clone_opt(&l.message), i == 0));
            i += 1;
        }
        assert(plan_view(r@) =~= report_labels(self@.labels));
        r
    }

    /// Renders the diagnostic over the text of its file.
    pub fn render(&self, filename: &str, source_text: &str) -> (r: String)
        requires
            self@.ordered(),
        ensures
            is_rendered(r@, self@, filename@, source_text@),
    {
        let plan = self.label_plan();
        proof {
            assert(plan_view(plan@).len() == report_labels(self@.labels).len());
            assert forall|i: int| 0 <= i < plan@.len() implies (#[trigger] plan@[i]).0
                <= plan@[i].1 by {
                assert(plan_view(plan@)[i] == report_labels(self@.labels)[i]);
                assert(self@.labels[i].span.ordered());
            }
        }
        let r = render_report(
            self.is_error(),
            filename,
            source_text,
            self.primary_start(),
            self.message.as_str(),
            &self.code,
            &self.note,
            &plan,
        );
        assert(is_rendered(r@, self@, filename@, source_text@)) by {
            assert(r@ == rendered(true, self@, filename@, source_text@) || r@ == rendered(
                false,
                self@,
                filename@,
                source_text@,
            ));
        }
        r
    }
}

/// Whether any of the diagnostics is an error.
pub open spec fn has_error(diags: Seq<DiagnosticView>) -> bool {
    exists|i: int| 0 <= i < diags.len() && (#[trigger] diags[i]).severity == Severity::Error
}

/// Whether any of the diagnostics is an error, which is when a compilation fails.
pub fn any_error(diags: &[Diagnostic]) -> (r: bool)
    ensures
        r == has_error(model::all(diags@)),
{
    let mut i: usize = 0;
    while i < diags.len()
        invariant
            i <= diags@.len(),
            forall|k: int| 0 <= k < i ==> (#[trigger] model::all(diags@)[k]).severity != Severity::Error,
        decreases diags@.len() - i,
    {
        if diags[i].is_error() {
            assert(model::all(diags@)[i as int].severity == Severity::Error);
            return true;
        }
        i += 1;
    }
    false
}

/// Whether a text is the rendered form of a diagnostic, with or without colours.
pub open spec fn is_rendered(
    shown: Seq<char>,
    d: DiagnosticView,
    file: Seq<char>,
    text: Seq<char>,
) -> bool {
    exists|colour: bool| shown == #[trigger] rendered(colour, d, file, text)
}

/// Whether texts are the rendered forms of diagnostics, in order. Whether colours
/// are written may change from one to the next.
pub open spec fn are_rendered(
    texts: Seq<Seq<char>>,
    diags: Seq<DiagnosticView>,
    file: Seq<char>,
    text: Seq<char>,
) -> bool {
    &&& texts.len() == diags.len()
    &&& forall|i: int|
        0 <= i < texts.len() ==> is_rendered(#[trigger] texts[i], diags[i], file, text)
}

/// Whether a text is the rendered forms of diagnostics with a line break between
/// them.
pub open spec fn is_batch(
    shown: Seq<char>,
    diags: Seq<DiagnosticView>,
    file: Seq<char>,
    text: Seq<char>,
) -> bool {
    exists|texts: Seq<Seq<char>>|
        #[trigger] are_rendered(texts, diags, file, text) && shown == text::join(texts, "\n"@)
}

/// The rendered forms of diagnostics, with or without colours, with a line break
/// between them.
pub open spec fn rendered_batch(
    colour: bool,
    diags: Seq<DiagnosticView>,
    file: Seq<char>,
    text: Seq<char>,
) -> Seq<char> {
    text::join(
        Seq::new(diags.len(), |i: int| rendered(colour, diags[i], file, text)),
        "\n"@,
    )
}

/// Nothing is rendered as nothing, one diagnostic as itself, and two batches as
/// the one, a line break and the other, as long as colours stay on or off.
pub proof fn batches_render_apart(
    colour: bool,
    d: DiagnosticView,
    a: Seq<DiagnosticView>,
    b: Seq<DiagnosticView>,
    file: Seq<char>,
    text: Seq<char>,
)
    ensures
        rendered_batch(colour, Seq::empty(), file, text) == Seq::<char>::empty(),
        rendered_batch(colour, seq![d], file, text) == rendered(colour, d, file, text),
        a.len() > 0 && b.len() > 0 ==> rendered_batch(colour, a + b, file, text)
            == rendered_batch(colour, a, file, text) + "\n"@ + rendered_batch(
            colour,
            b,
            file,
            text,
        ),
{
    if a.len() > 0 && b.len() > 0 {
        let one = |ds: Seq<DiagnosticView>|
            Seq::new(ds.len(), |i: int| rendered(colour, ds[i], file, text));
        assert(one(a + b) =~= one(a) + one(b));
        text::join_appends(one(a), one(b), "\n"@);
    }
}

/// What [`render_all`] gives for two batches is, whatever happens to colours, what
/// it may give for the one, a line break, and what it may give for the other. What
/// it gives for one diagnostic is what [`Diagnostic::render`] may give.
pub proof fn batches_come_apart(
    shown: Seq<char>,
    d: DiagnosticView,
    a: Seq<DiagnosticView>,
    b: Seq<DiagnosticView>,
    file: Seq<char>,
    text: Seq<char>,
)
    ensures
        is_batch(shown, Seq::empty(), file, text) <==> shown == Seq::<char>::empty(),
        is_batch(shown, seq![d], file, text) <==> is_rendered(shown, d, file, text),
        a.len() > 0 && b.len() > 0 ==> (is_batch(shown, a + b, file, text) <==> exists|
            x: Seq<char>,
            y: Seq<char>,
        | #[trigger]
            is_batch(x, a, file, text) && #[trigger] is_batch(y, b, file, text) && shown == x + "\n"@
                + y),
{
    assert(are_rendered(Seq::empty(), Seq::empty(), file, text));
    if is_batch(shown, Seq::empty(), file, text) {
        let ts = choose|ts: Seq<Seq<char>>|
            #[trigger] are_rendered(ts, Seq::empty(), file, text) && shown == text::join(ts, "\n"@);
        assert(ts =~= Seq::empty());
    }
    if is_rendered(shown, d, file, text) {
        assert(are_rendered(seq![shown], seq![d], file, text));
    }
    if is_batch(shown, seq![d], file, text) {
        let ts = choose|ts: Seq<Seq<char>>|
            #[trigger] are_rendered(ts, seq![d], file, text) && shown == text::join(ts, "\n"@);
        assert(is_rendered(ts[0], seq![d][0], file, text));
    }
    if a.len() > 0 && b.len() > 0 {
        if is_batch(shown, a + b, file, text) {
            let ts = choose|ts: Seq<Seq<char>>|
                #[trigger] are_rendered(ts, a + b, file, text) && shown == text::join(ts, "\n"@);
            let (xs, ys) = (ts.take(a.len() as int), ts.skip(a.len() as int));
            assert(xs + ys =~= ts);
            text::join_appends(xs, ys, "\n"@);
            assert forall|i: int| 0 <= i < xs.len() implies is_rendered(
                #[trigger] xs[i],
                a[i],
                file,
                text,
            ) by {
                assert(ts[i] == xs[i] && (a + b)[i] == a[i]);
            }
            assert forall|i: int| 0 <= i < ys.len() implies is_rendered(
                #[trigger] ys[i],
                b[i],
                file,
                text,
            ) by {
                assert(ts[a.len() + i] == ys[i] && (a + b)[a.len() + i] == b[i]);
            }
            assert(are_rendered(xs, a, file, text) && are_rendered(ys, b, file, text));
            assert(is_batch(text::join(xs, "\n"@), a, file, text));
            assert(is_batch(text::join(ys, "\n"@), b, file, text));
        }
        if exists|x: Seq<char>, y: Seq<char>| #[trigger]
            is_batch(x, a, file, text) && #[trigger] is_batch(y, b, file, text) && shown == x + "\n"@
                + y {
            let (x, y) = choose|x: Seq<char>, y: Seq<char>| #[trigger]
                is_batch(x, a, file, text) && #[trigger] is_batch(y, b, file, text) && shown == x
                    + "\n"@ + y;
            let xs = choose|ts: Seq<Seq<char>>|
                #[trigger] are_rendered(ts, a, file, text) && x == text::join(ts, "\n"@);
            let ys = choose|ts: Seq<Seq<char>>|
                #[trigger] are_rendered(ts, b, file, text) && y == text::join(ts, "\n"@);
            text::join_appends(xs, ys, "\n"@);
            assert forall|i: int| 0 <= i < (xs + ys).len() implies is_rendered(
                #[trigger] (xs + ys)[i],
                (a + b)[i],
                file,
                text,
            ) by {
                if i < a.len() {
                    assert((xs + ys)[i] == xs[i]);
                } else {
                    assert((xs + ys)[i] == ys[i - a.len()]);
                }
            }
            assert(are_rendered(xs + ys, a + b, file, text));
        }
    }
}

/// Renders the diagnostics, one after the other, with a line break between them.
pub fn render_all(diags: &[Diagnostic], filename: &str, source_text: &str) -> (r: String)
    requires
        forall|i: int| 0 <= i < diags@.len() ==> (#[trigger] diags@[i])@.ordered(),
    ensures
        is_batch(r@, model::all(diags@), filename@, source_text@),
{
    let mut parts: Vec<String> = Vec::new();
    let mut i: usize = 0;
    while i < diags.len()
        invariant
            i <= diags@.len(),
            forall|k: int| 0 <= k < diags@.len() ==> (#[trigger] diags@[k])@.ordered(),
            are_rendered(
                model::all(parts@),
                model::all(diags@).take(i as int),
                filename@,
                source_text@,
            ),
        decreases diags@.len() - i,
    {
        let s = diags[i].render(filename, source_text);
        let ghost before = model::all(parts@);
        let ghost front = model::all(diags@).take(i as int);
        parts.push(s);
        proof {
            let texts = model::all(parts@);
            let ds = model::all(diags@).take(i + 1);
            assert(texts.len() == ds.len());
            assert forall|k: int| 0 <= k < texts.len() implies is_rendered(
                #[trigger] texts[k],
                ds[k],
                filename@,
                source_text@,
            ) by {
                if k < i {
                    assert(texts[k] == before[k] && ds[k] == front[k]);
                } else {
                    assert(texts[k] == s@ && ds[k] == diags@[i as int]@);
                }
            }
            assert(are_rendered(texts, ds, filename@, source_text@));
        }
        i += 1;
    }
    assert(model::all(diags@).take(i as int) =~= model::all(diags@));
    join_strings(parts.as_slice(), "\n")
}

} // verus!
