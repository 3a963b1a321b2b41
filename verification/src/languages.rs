//! The language bar of a project: which language shares are shown, and the
//! markup of the bar.

use crate::project::{Decimal1, LanguageStat, LanguageStatView};
use vstd::prelude::*;
use vstd::string::*;

verus! {

/// At most this many languages are shown.
pub const MAX_LANGUAGES: usize = 4;

/// Once the shares shown add up to more than this many tenths of a percent,
/// no further language is shown.
pub const THRESHOLD: u64 = 970;

/// The whole, in tenths of a percent.
pub const WHOLE: u64 = 1000;

/// The shares of the first `n` languages added up, in tenths of a percent.
pub open spec fn covered_by(languages: Seq<LanguageStatView>, n: int) -> nat
    decreases n,
{
    if n <= 0 || n > languages.len() {
        0
    } else {
        covered_by(languages, n - 1) + languages[n - 1].tenths
    }
}

/// Whether the bar stops after the first `n` languages: they are all there
/// are, or as many as are ever shown, or they cover more than the threshold.
pub open spec fn stops_after(languages: Seq<LanguageStatView>, n: int) -> bool {
    n >= languages.len() || n >= MAX_LANGUAGES || covered_by(languages, n) > THRESHOLD
}

/// What the language bar of a project shows.
#[derive(Clone, Copy, Debug, PartialEq, Eq, Structural)]
pub struct LanguageBar {
    /// The number of languages shown: the leading ones of the list.
    pub shown: usize,
    /// The sum of the shares shown, or the largest number that fits where
    /// the sum is above it.
    pub covered: Decimal1,
    /// Whether a segment for the other languages closes the bar: it does
    /// where the shares shown leave part of the whole uncovered.
    pub other: bool,
    /// The number of segments: one for each language shown, and the closing
    /// one if there is one.
    pub total: usize,
}

impl LanguageBar {
    /// Whether a segment has a border on its right: every segment but the
    /// last one has.
    pub fn bordered(&self, segment: usize) -> (bordered: bool)
        ensures
            bordered == (segment + 1 != self.total),
    {
        self.total == 0 || segment != self.total - 1
    }
}

/// Decides what the language bar of a project shows. The languages are
/// taken in the order given, which is meant to be the largest share first.
/// Languages are shown until the list ends, four are shown, or the shares
/// shown cover more than 97 percent.
pub fn language_stats(languages: &Vec<LanguageStat>) -> (bar: LanguageBar)
    ensures
        0 <= bar.shown <= languages.len(),
        stops_after(languages.deep_view(), bar.shown as int),
        forall|n: int| 0 <= n < bar.shown ==> !stops_after(languages.deep_view(), n),
        bar.covered.0 == (if covered_by(languages.deep_view(), bar.shown as int) <= u64::MAX {
            covered_by(languages.deep_view(), bar.shown as int)
        } else {
            u64::MAX as nat
        }),
        bar.other == (covered_by(languages.deep_view(), bar.shown as int) < WHOLE),
        bar.total == bar.shown + (if bar.other {
            1int
        } else {
            0int
        }),
{
    let ghost views = languages.deep_view();
    let mut shown: usize = 0;
    let mut covered: u64 = 0;
    while shown < languages.len() && shown < MAX_LANGUAGES && covered <= THRESHOLD
        invariant
            shown <= languages.len(),
            shown <= MAX_LANGUAGES,
            views == languages.deep_view(),
            covered == (if covered_by(views, shown as int) <= u64::MAX {
                covered_by(views, shown as int)
            } else {
                u64::MAX as nat
            }),
            forall|n: int| 0 <= n < shown ==> !stops_after(views, n),
        decreases languages.len() - shown,
    {
        assert(views[shown as int].tenths == languages[shown as int].percentage.0);
        covered = covered.saturating_add(languages[shown].percentage.0);
        shown += 1;
    }
    let other = covered < WHOLE;
    let total = if other {
        shown + 1
    } else {
        shown
    };
    LanguageBar { shown, covered: Decimal1(covered), other, total }
}

/// One segment of the language bar, with the numbers of its style already
/// written out.
#[derive(Debug)]
pub struct BarSegment {
    /// The name under the segment: a language, or what stands for the rest.
    pub label: String,
    /// The width of the segment in percent.
    pub width: String,
    /// The opacity of the segment.
    pub opacity: String,
    /// Whether the segment has a border on its right.
    pub bordered: bool,
}

/// The mathematical content of a [`BarSegment`].
pub struct BarSegmentView {
    pub label: Seq<char>,
    pub width: Seq<char>,
    pub opacity: Seq<char>,
    pub bordered: bool,
}

impl View for BarSegment {
    type V = BarSegmentView;

    open spec fn view(&self) -> BarSegmentView {
        BarSegmentView {
            label: self.label@,
            width: self.width@,
            opacity: self.opacity@,
            bordered: self.bordered,
        }
    }
}

impl DeepView for BarSegment {
    type V = BarSegmentView;

    open spec fn deep_view(&self) -> BarSegmentView {
        self@
    }
}

/// The markup of one segment in the bar.
pub open spec fn span_markup(segment: BarSegmentView) -> Seq<char> {
    "<span style=\"width:"@ + segment.width + "%;opacity:"@ + segment.opacity + ";"@ + (
    if segment.bordered {
        "border-right: 1px solid white;"@
    } else {
        Seq::empty()
    }) + "\"></span>"@
}

/// The markup of one segment in the legend.
pub open spec fn dot_markup(segment: BarSegmentView) -> Seq<char> {
    "<div class=\"language_dot\"><span class=\"dot\" style=\"opacity:"@ + segment.opacity
        + "\"></span>"@ + "<span>"@ + segment.label + "</span></div>"@
}

/// The segments of the bar, one after the other.
pub open spec fn spans_markup(segments: Seq<BarSegmentView>) -> Seq<char>
    decreases segments.len(),
{
    if segments.len() == 0 {
        Seq::empty()
    } else {
        spans_markup(segments.drop_last()) + span_markup(segments.last())
    }
}

/// The entries of the legend, one after the other.
pub open spec fn dots_markup(segments: Seq<BarSegmentView>) -> Seq<char>
    decreases segments.len(),
{
    if segments.len() == 0 {
        Seq::empty()
    } else {
        dots_markup(segments.drop_last()) + dot_markup(segments.last())
    }
}

/// The markup of the language bar and its legend.
pub open spec fn bar_markup(segments: Seq<BarSegmentView>) -> Seq<char> {
    "<div class=\"language_bar\">"@ + spans_markup(segments) + "</div>"@
        + "<div class=\"language_dots\">"@ + dots_markup(segments) + "</div>"@
}

/// Writes the markup of the language bar and its legend.
pub fn render_language_bar(segments: &Vec<BarSegment>) -> (markup: String)
    ensures
        markup@ == bar_markup(segments.deep_view()),
{
    let ghost views = segments.deep_view();
    let mut markup = String::from_str("<div class=\"language_bar\">");
    let mut i: usize = 0;
    assert(views.subrange(0, 0) =~= Seq::<BarSegmentView>::empty());
    assert(markup@ =~= "<div class=\"language_bar\">"@ + spans_markup(views.subrange(0, 0)));
    while i < segments.len()
        invariant
            i <= segments.len(),
            views == segments.deep_view(),
            markup@ == "<div class=\"language_bar\">"@ + spans_markup(views.subrange(0, i as int)),
        decreases segments.len() - i,
    {
        let ghost before = markup@;
        let ghost next = views.subrange(0, i + 1);
        proof {
            assert(next.drop_last() =~= views.subrange(0, i as int));
            assert(next.last() == segments[i as int]@);
        }
        let segment = &segments[i];
        markup.append("<span style=\"width:");
        markup.append(segment.width.as_str());
        markup.append("%;opacity:");
        markup.append(segment.opacity.as_str());
        markup.append(";");
        if segment.bordered {
            markup.append("border-right: 1px solid white;");
        }
        markup.append("\"></span>");
        assert(markup@ =~= before + span_markup(segment@));
        assert(markup@ =~= "<div class=\"language_bar\">"@ + spans_markup(next));
        i += 1;
    }
    assert(views.subrange(0, views.len() as int) =~= views);
    markup.append("</div>");
    markup.append("<div class=\"language_dots\">");
    let ghost head = markup@;
    let mut j: usize = 0;
    assert(markup@ =~= head + dots_markup(views.subrange(0, 0)));
    while j < segments.len()
        invariant
            j <= segments.len(),
            views == segments.deep_view(),
            markup@ == head + dots_markup(views.subrange(0, j as int)),
        decreases segments.len() - j,
    {
        let ghost before = markup@;
        let ghost next = views.subrange(0, j + 1);
        proof {
            assert(next.drop_last() =~= views.subrange(0, j as int));
            assert(next.last() == segments[j as int]@);
        }
        let segment = &segments[j];
        markup.append("<div class=\"language_dot\"><span class=\"dot\" style=\"opacity:");
        markup.append(segment.opacity.as_str());
        markup.append("\"></span>");
        markup.append("<span>");
        markup.append(segment.label.as_str());
        markup.append("</span></div>");
        assert(markup@ =~= before + dot_markup(segment@));
        assert(markup@ =~= head + dots_markup(next));
        j += 1;
    }
    markup.append("</div>");
    assert(markup@ =~= bar_markup(views));
    markup
}

/// Puts the segments of the bar together, from what the bar shows and the
/// numbers of each segment's style as they are written out: one segment for
/// each language shown, under the language's name, and the closing segment
/// under `Other` if there is one. Every segment but the last has a border.
pub fn bar_segments(
    languages: &Vec<LanguageStat>,
    bar: &LanguageBar,
    widths: &Vec<String>,
    opacities: &Vec<String>,
) -> (segments: Vec<BarSegment>)
    requires
        bar.shown <= languages.len(),
        bar.total == bar.shown + (if bar.other {
            1int
        } else {
            0int
        }),
        widths.len() == bar.total,
        opacities.len() == bar.total,
    ensures
        segments.len() == bar.total,
        forall|i: int|
            0 <= i < bar.shown ==> (#[trigger] segments[i])@.label == languages[i]@.language,
        bar.other ==> segments[bar.shown as int]@.label == "Other"@,
        forall|i: int|
            0 <= i < bar.total ==> (#[trigger] segments[i])@.bordered == (i + 1 != bar.total)
                && segments[i]@.width == widths[i]@ && segments[i]@.opacity == opacities[i]@,
{
    let mut segments: Vec<BarSegment> = Vec::new();
    let mut i: usize = 0;
    while i < bar.shown
        invariant
            i <= bar.shown <= languages.len(),
            bar.shown <= bar.total,
            widths.len() == bar.total,
            opacities.len() == bar.total,
            segments.len() == i,
            forall|j: int| 0 <= j < i ==> (#[trigger] segments[j])@.label == languages[j]@.language,
            forall|j: int|
                0 <= j < i ==> (#[trigger] segments[j])@.bordered == (j + 1 != bar.total)
                    && segments[j]@.width == widths[j]@ && segments[j]@.opacity == opacities[j]@,
        decreases bar.shown - i,
    {
        segments.push(
            BarSegment {
                label: languages[i].language.clone(),
                width: widths[i].clone(),
                opacity: opacities[i].clone(),
                bordered: bar.bordered(i),
            },
        );
        i += 1;
    }
    if bar.other {
        segments.push(
            BarSegment {
                label: String::from_str("Other"),
                width: widths[i].clone(),
                opacity: opacities[i].clone(),
                bordered: bar.bordered(i),
            },
        );
    }
    segments
}

} // verus!
