//! Rendering a conflict as a visual diff.  The diff segments come from the
//! difference crate (a black-box service: two texts and a separator in, an
//! ordered sequence of same/added/removed segments out); turning the
//! segments into styled spans is this crate's own, verified logic.  Every
//! line of a segment gets its own prefixed span (a space for unchanged
//! lines, `-` for removed, `+` for inserted); a pure insertion right after a
//! removal is refined to a word-level diff of the pair, so the precise
//! sub-line change is called out.

use vstd::prelude::*;

verus! {

/// One segment of a diff, at the granularity the separator gave.
pub enum DiffSeg {
    /// Text both sides share.
    Same(String),
    /// Text only the second (partner) side has.
    Add(String),
    /// Text only the first (master) side has.
    Rem(String),
}

/// The model of a segment: a tag (0 same, 1 added, 2 removed) and the text.
pub type SegModel = (int, Seq<char>);

impl View for DiffSeg {
    type V = SegModel;

    open spec fn view(&self) -> SegModel {
        match self {
            DiffSeg::Same(x) => (0int, x@),
            DiffSeg::Add(x) => (1int, x@),
            DiffSeg::Rem(x) => (2int, x@),
        }
    }
}

impl DeepView for DiffSeg {
    type V = SegModel;

    open spec fn deep_view(&self) -> SegModel {
        self.view()
    }
}

/// The segments that diffing `a` against `b` at separator `sep` yields.
/// Named, not stated: the result depends on the three texts alone.
pub uninterp spec fn diff_of(a: Seq<char>, b: Seq<char>, sep: Seq<char>) -> Seq<SegModel>;

/// Relies on difference::Changeset::new: the ordered same/added/removed
/// segments of the two texts at the given separator, a function of its
/// three arguments alone.  Two equal texts share everything, so they yield
/// one shared segment holding the whole text — or nothing when the texts
/// are empty.
#[verifier::external_body]
fn compute_diff(a: &str, b: &str, sep: &str) -> (r: Vec<DiffSeg>)
    ensures
        r.deep_view() == diff_of(a@, b@, sep@),
        a@ == b@ ==> r.deep_view() == (if a@.len() == 0 {
            Seq::<SegModel>::empty()
        } else {
            seq![(0int, a@)]
        }),
{
    let changeset = difference::Changeset::new(a, b, sep);
    changeset.diffs.into_iter().map(
        |d| match d {
            difference::Difference::Same(x) => DiffSeg::Same(x),
            difference::Difference::Add(x) => DiffSeg::Add(x),
            difference::Difference::Rem(x) => DiffSeg::Rem(x),
        },
    ).collect()
}

/// How a span of rendered text is to be shown.  What matters is that the
/// styles are visually distinguishable; the concrete colors are the
/// presentation layer's business.
#[derive(Clone, Copy, Debug, PartialEq, Eq, Structural)]
pub enum Style {
    /// Unchanged text.
    Plain,
    /// Removed text, in an attention color.
    Attention,
    /// Inserted text, in a positive color.
    Positive,
    /// A whole inserted line, in a brighter positive color.
    PositiveBright,
    /// An inserted word inside a changed line, inverse/highlighted.
    Highlight,
}

/// A run of output text under one style.
pub struct Span {
    /// How to show the text.
    pub style: Style,
    /// The text itself, line breaks included.
    pub text: String,
}

/// The model of a span: its style and its text.
pub type SpanModel = (Style, Seq<char>);

impl View for Span {
    type V = SpanModel;

    open spec fn view(&self) -> SpanModel {
        (self.style, self.text@)
    }
}

impl DeepView for Span {
    type V = SpanModel;

    open spec fn deep_view(&self) -> SpanModel {
        self.view()
    }
}

/// One span per line of `s` from position `i` on, each line carrying the
/// prefix and a closing line break, all under one style; `cur` is the part
/// of the current line already passed.
pub open spec fn spec_line_spans_from(
    style: Style,
    prefix: Seq<char>,
    s: Seq<char>,
    i: int,
    cur: Seq<char>,
) -> Seq<SpanModel>
    decreases s.len() - i,
{
    if i < 0 || i >= s.len() {
        seq![(style, prefix + cur + "\n"@)]
    } else if s[i] == '\n' {
        seq![(style, prefix + cur + "\n"@)] + spec_line_spans_from(
            style,
            prefix,
            s,
            i + 1,
            Seq::empty(),
        )
    } else {
        spec_line_spans_from(style, prefix, s, i + 1, cur.push(s[i]))
    }
}

/// One span per line of a segment's text, each line prefixed and closed with
/// a line break, all under one style.
pub open spec fn spec_line_spans(style: Style, prefix: Seq<char>, s: Seq<char>) -> Seq<SpanModel> {
    spec_line_spans_from(style, prefix, s, 0, Seq::empty())
}

/// Every span of a line rendering carries the one style it was given: a
/// segment rendered neutrally shows no attention or positive styling on any
/// of its lines.
pub proof fn lemma_line_spans_styled(
    style: Style,
    prefix: Seq<char>,
    s: Seq<char>,
    i: int,
    cur: Seq<char>,
)
    ensures
        forall|j: int|
            0 <= j < spec_line_spans_from(style, prefix, s, i, cur).len()
                ==> (#[trigger] spec_line_spans_from(style, prefix, s, i, cur)[j]).0 == style,
    decreases s.len() - i,
{
    if i < 0 || i >= s.len() {
    } else if s[i] == '\n' {
        lemma_line_spans_styled(style, prefix, s, i + 1, Seq::empty());
        let head = seq![(style, prefix + cur + "\n"@)];
        let tail = spec_line_spans_from(style, prefix, s, i + 1, Seq::empty());
        assert forall|j: int| 0 <= j < (head + tail).len() implies (#[trigger] (head + tail)[
        j]).0 == style by {
            if j >= 1 {
                assert((head + tail)[j] == tail[j - 1]);
            }
        }
    } else {
        lemma_line_spans_styled(style, prefix, s, i + 1, cur.push(s[i]));
    }
}

/// Appends to `out` one styled span per line of `text`, each line prefixed
/// and closed with a line break.
fn push_line_spans(out: &mut Vec<Span>, style: Style, prefix: &str, text: &str)
    ensures
        final(out).deep_view() == old(out).deep_view() + spec_line_spans(style, prefix@, text@),
{
    let ghost base = old(out).deep_view();
    let n = text.unicode_len();
    let mut start: usize = 0;
    let mut i: usize = 0;
    proof {
        assert(text@.subrange(0, 0) =~= Seq::<char>::empty());
    }
    while i < n
        invariant
            n == text@.len(),
            start <= i <= n,
            base + spec_line_spans(style, prefix@, text@) == out.deep_view()
                + spec_line_spans_from(
                style,
                prefix@,
                text@,
                i as int,
                text@.subrange(start as int, i as int),
            ),
        decreases n - i,
    {
        let ghost pre = out.deep_view();
        let ghost cur = text@.subrange(start as int, i as int);
        if text.get_char(i) == '\n' {
            let mut t = String::from_str(prefix);
            t.append(text.substring_char(start, i));
            t.append("\n");
            let ghost tv = t@;
            out.push(Span { style, text: t });
            start = i + 1;
            proof {
                assert(tv == prefix@ + cur + "\n"@);
                assert(out.deep_view() =~= pre.push((style, tv)));
                assert(text@.subrange(start as int, start as int) =~= Seq::<char>::empty());
                assert(out.deep_view() + spec_line_spans_from(
                    style,
                    prefix@,
                    text@,
                    i + 1,
                    Seq::empty(),
                ) =~= pre + spec_line_spans_from(style, prefix@, text@, i as int, cur));
            }
        } else {
            proof {
                assert(text@.subrange(start as int, i as int + 1) =~= cur.push(text@[i as int]));
            }
        }
        i += 1;
    }
    let ghost pre = out.deep_view();
    let ghost cur = text@.subrange(start as int, n as int);
    let mut t = String::from_str(prefix);
    t.append(text.substring_char(start, n));
    t.append("\n");
    let ghost tv = t@;
    out.push(Span { style, text: t });
    proof {
        assert(tv == prefix@ + cur + "\n"@);
        assert(out.deep_view() =~= pre.push((style, tv)));
        assert(pre + spec_line_spans_from(style, prefix@, text@, n as int, cur) =~= out.deep_view());
    }
}

/// The spans one word-level segment renders to: a shared word in the
/// positive color with a trailing space, an inserted word highlighted and
/// followed by a plain space, a removed word not shown at all.
pub open spec fn spec_word_spans_at(w: SegModel) -> Seq<SpanModel> {
    if w.0 == 0 {
        seq![(Style::Positive, w.1 + " "@)]
    } else if w.0 == 1 {
        seq![(Style::Highlight, w.1), (Style::Plain, " "@)]
    } else {
        Seq::empty()
    }
}

/// The spans the first `n` word-level segments render to, in order.
pub open spec fn spec_word_spans_upto(ws: Seq<SegModel>, n: int) -> Seq<SpanModel>
    decreases n,
{
    if n <= 0 {
        Seq::empty()
    } else {
        spec_word_spans_upto(ws, n - 1) + spec_word_spans_at(ws[n - 1])
    }
}

/// The spans one line-level segment renders to.  A shared segment is plain,
/// every line prefixed with a space; a removed segment gets a `-` prefix on
/// every line in the attention color; an inserted segment right after a
/// removed one is rendered as a word-level diff of the pair behind a
/// positive `+`; any other inserted segment gets a `+` prefix on every line
/// in the brighter positive color.
pub open spec fn spec_render_at(segs: Seq<SegModel>, i: int) -> Seq<SpanModel> {
    let tag = segs[i].0;
    let x = segs[i].1;
    if tag == 0 {
        spec_line_spans(Style::Plain, " "@, x)
    } else if tag == 2 {
        spec_line_spans(Style::Attention, "-"@, x)
    } else if tag == 1 {
        if i > 0 && segs[i - 1].0 == 2 {
            let ws = diff_of(segs[i - 1].1, x, " "@);
            seq![(Style::Positive, "+"@)] + spec_word_spans_upto(ws, ws.len() as int) + seq![
                (Style::Plain, "\n"@),
            ]
        } else {
            spec_line_spans(Style::PositiveBright, "+"@, x)
        }
    } else {
        Seq::empty()
    }
}

/// The spans the first `n` line-level segments render to, in order.
pub open spec fn spec_render_upto(segs: Seq<SegModel>, n: int) -> Seq<SpanModel>
    decreases n,
{
    if n <= 0 {
        Seq::empty()
    } else {
        spec_render_upto(segs, n - 1) + spec_render_at(segs, n - 1)
    }
}

/// The full rendering of a conflict between two texts: the line-level diff
/// of the two, segment by segment.
pub open spec fn spec_render_diff(a: Seq<char>, b: Seq<char>) -> Seq<SpanModel> {
    let segs = diff_of(a, b, "\n"@);
    spec_render_upto(segs, segs.len() as int)
}

/// Renders the conflict between a master value and a partner value as a
/// sequence of styled spans, ready for a terminal (or any other sink) to
/// show.  Two equal texts render as their lines, each exactly once, plain
/// and space-prefixed: no added or removed line appears.
pub fn render_diff(master: &str, partner: &str) -> (out: Vec<Span>)
    ensures
        out.deep_view() == spec_render_diff(master@, partner@),
        master@ == partner@ ==> out.deep_view() == (if master@.len() == 0 {
            Seq::<SpanModel>::empty()
        } else {
            spec_line_spans(Style::Plain, " "@, master@)
        }),
{
    let segs = compute_diff(master, partner, "\n");
    let ghost sm = segs.deep_view();
    let n = segs.len();
    let mut out: Vec<Span> = Vec::new();
    let mut i: usize = 0;
    proof {
        assert(out.deep_view() =~= spec_render_upto(sm, 0));
    }
    while i < n
        invariant
            n == segs@.len(),
            i <= n,
            sm == segs.deep_view(),
            sm == diff_of(master@, partner@, "\n"@),
            out.deep_view() == spec_render_upto(sm, i as int),
        decreases n - i,
    {
        let ghost pre = out.deep_view();
        match &segs[i] {
            DiffSeg::Same(x) => {
                push_line_spans(&mut out, Style::Plain, " ", x.as_str());
            },
            DiffSeg::Rem(x) => {
                push_line_spans(&mut out, Style::Attention, "-", x.as_str());
            },
            DiffSeg::Add(x) => {
                let mut prev_rem: Option<&String> = None;
                if i > 0 {
                    match &segs[i - 1] {
                        DiffSeg::Rem(y) => {
                            prev_rem = Some(y);
                        },
                        _ => {},
                    }
                }
                match prev_rem {
                    Some(y) => {
                        out.push(Span { style: Style::Positive, text: String::from_str("+") });
                        proof {
                            assert(out.deep_view() =~= pre.push((Style::Positive, "+"@)));
                        }
                        let words = compute_diff(y.as_str(), x.as_str(), " ");
                        let ghost wm = words.deep_view();
                        let m = words.len();
                        let mut j: usize = 0;
                        proof {
                            assert(out.deep_view() =~= pre.push((Style::Positive, "+"@))
                                + spec_word_spans_upto(wm, 0));
                        }
                        while j < m
                            invariant
                                m == words@.len(),
                                j <= m,
                                wm == words.deep_view(),
                                out.deep_view() == pre.push((Style::Positive, "+"@))
                                    + spec_word_spans_upto(wm, j as int),
                            decreases m - j,
                        {
                            let ghost wpre = out.deep_view();
                            match &words[j] {
                                DiffSeg::Same(z) => {
                                    let mut t = z.clone();
                                    t.append(" ");
                                    let ghost tv = t@;
                                    out.push(Span { style: Style::Positive, text: t });
                                    proof {
                                        assert(out.deep_view() =~= wpre.push(
                                            (Style::Positive, tv),
                                        ));
                                    }
                                },
                                DiffSeg::Add(z) => {
                                    let ghost zv = z@;
                                    out.push(Span { style: Style::Highlight, text: z.clone() });
                                    proof {
                                        assert(out.deep_view() =~= wpre.push(
                                            (Style::Highlight, zv),
                                        ));
                                    }
                                    let ghost wpre2 = out.deep_view();
                                    out.push(
                                        Span { style: Style::Plain, text: String::from_str(" ") },
                                    );
                                    proof {
                                        assert(out.deep_view() =~= wpre2.push(
                                            (Style::Plain, " "@),
                                        ));
                                    }
                                },
                                DiffSeg::Rem(_) => {},
                            }
                            j += 1;
                            proof {
                                assert(out.deep_view() =~= wpre + spec_word_spans_at(
                                    wm[j - 1],
                                ));
                            }
                        }
                        let ghost wpre = out.deep_view();
                        out.push(Span { style: Style::Plain, text: String::from_str("\n") });
                        proof {
                            assert(out.deep_view() =~= wpre.push((Style::Plain, "\n"@)));
                            assert(out.deep_view() =~= pre + spec_render_at(sm, i as int));
                        }
                    },
                    None => {
                        push_line_spans(&mut out, Style::PositiveBright, "+", x.as_str());
                    },
                }
            },
        }
        i += 1;
        proof {
            assert(out.deep_view() =~= pre + spec_render_at(sm, i - 1));
        }
    }
    proof {
        if master@ == partner@ {
            assert(sm.len() == segs@.len());
            if master@.len() == 0 {
                assert(sm.len() == 0);
                assert(out.deep_view() == spec_render_upto(sm, 0));
                assert(out.deep_view() =~= Seq::<SpanModel>::empty());
            } else {
                assert(sm == seq![(0int, master@)]);
                assert(sm.len() == 1);
                assert(out.deep_view() == spec_render_upto(sm, 1));
                assert(spec_render_upto(sm, 1) =~= spec_render_upto(sm, 0) + spec_render_at(
                    sm,
                    0,
                ));
                assert(sm[0].0 == 0 && sm[0].1 == master@);
                assert(spec_render_at(sm, 0) == spec_line_spans(Style::Plain, " "@, master@));
                assert(out.deep_view() =~= spec_line_spans(Style::Plain, " "@, master@));
            }
        }
    }
    out
}

} // verus!
