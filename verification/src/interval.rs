//! The interval over which a change is measured, its two spellings, and the
//! selector that shows the intervals side by side.

use vstd::prelude::*;
use crate::text::text_is;

verus! {

/// The span of time over which the change of an asset is measured.
#[derive(Clone, Copy, Debug, PartialEq, Eq, Structural)]
pub enum Interval {
    Day,
    Week,
    Month,
    ThreeMonth,
    SixMonth,
    Year,
    TwoYear,
    FiveYear,
    YearToDay,
}

/// The number of intervals.
pub const INTERVAL_COUNT: usize = 9;

impl Interval {
    /// The spelling that the market-data provider understands.
    pub open spec fn provider_format(self) -> Seq<char> {
        match self {
            Interval::Day => "1d"@,
            Interval::Week => "1wk"@,
            Interval::Month => "1mo"@,
            Interval::ThreeMonth => "3mo"@,
            Interval::SixMonth => "6mo"@,
            Interval::Year => "1y"@,
            Interval::TwoYear => "2y"@,
            Interval::FiveYear => "5y"@,
            Interval::YearToDay => "ytd"@,
        }
    }

    /// The spelling that the user reads and types.
    pub open spec fn label_spec(self) -> Seq<char> {
        match self {
            Interval::Day => "1D"@,
            Interval::Week => "1W"@,
            Interval::Month => "1M"@,
            Interval::ThreeMonth => "3M"@,
            Interval::SixMonth => "6M"@,
            Interval::Year => "1Y"@,
            Interval::TwoYear => "2Y"@,
            Interval::FiveYear => "5Y"@,
            Interval::YearToDay => "YTD"@,
        }
    }

    /// The interval at position `i` of the selector, from the shortest: the
    /// nine intervals stand at positions 0 to 8.
    pub open spec fn nth_spec(i: int) -> Interval {
        if i == 0 {
            Interval::Day
        } else if i == 1 {
            Interval::Week
        } else if i == 2 {
            Interval::Month
        } else if i == 3 {
            Interval::ThreeMonth
        } else if i == 4 {
            Interval::SixMonth
        } else if i == 5 {
            Interval::Year
        } else if i == 6 {
            Interval::TwoYear
        } else if i == 7 {
            Interval::FiveYear
        } else {
            Interval::YearToDay
        }
    }

    /// The interval that `text` is the label of, if it is the label of one.
    pub open spec fn parse_spec(text: Seq<char>) -> Option<Interval> {
        if text == "1D"@ {
            Some(Interval::Day)
        } else if text == "1W"@ {
            Some(Interval::Week)
        } else if text == "1M"@ {
            Some(Interval::Month)
        } else if text == "3M"@ {
            Some(Interval::ThreeMonth)
        } else if text == "6M"@ {
            Some(Interval::SixMonth)
        } else if text == "1Y"@ {
            Some(Interval::Year)
        } else if text == "2Y"@ {
            Some(Interval::TwoYear)
        } else if text == "5Y"@ {
            Some(Interval::FiveYear)
        } else if text == "YTD"@ {
            Some(Interval::YearToDay)
        } else {
            None
        }
    }

    /// The spelling that the market-data provider understands.
    pub fn to_provider_format(&self) -> (text: &str)
        ensures
            text@ == self.provider_format(),
    {
        match self {
            Interval::Day => "1d",
            Interval::Week => "1wk",
            Interval::Month => "1mo",
            Interval::ThreeMonth => "3mo",
            Interval::SixMonth => "6mo",
            Interval::Year => "1y",
            Interval::TwoYear => "2y",
            Interval::FiveYear => "5y",
            Interval::YearToDay => "ytd",
        }
    }

    /// The spelling that the user reads and types.
    pub fn label(&self) -> (text: &'static str)
        ensures
            text@ == self.label_spec(),
    {
        match self {
            Interval::Day => "1D",
            Interval::Week => "1W",
            Interval::Month => "1M",
            Interval::ThreeMonth => "3M",
            Interval::SixMonth => "6M",
            Interval::Year => "1Y",
            Interval::TwoYear => "2Y",
            Interval::FiveYear => "5Y",
            Interval::YearToDay => "YTD",
        }
    }

    /// The interval at position `i` of the selector.
    pub fn nth(i: usize) -> (interval: Interval)
        requires
            i < INTERVAL_COUNT,
        ensures
            interval == Self::nth_spec(i as int),
    {
        if i == 0 {
            Interval::Day
        } else if i == 1 {
            Interval::Week
        } else if i == 2 {
            Interval::Month
        } else if i == 3 {
            Interval::ThreeMonth
        } else if i == 4 {
            Interval::SixMonth
        } else if i == 5 {
            Interval::Year
        } else if i == 6 {
            Interval::TwoYear
        } else if i == 7 {
            Interval::FiveYear
        } else {
            Interval::YearToDay
        }
    }

    /// The labels of two different intervals differ.
    pub proof fn lemma_labels_distinct(a: Interval, b: Interval)
        ensures
            a.label_spec() == b.label_spec() <==> a == b,
    {
        reveal_strlit("1D");
        reveal_strlit("1W");
        reveal_strlit("1M");
        reveal_strlit("3M");
        reveal_strlit("6M");
        reveal_strlit("1Y");
        reveal_strlit("2Y");
        reveal_strlit("5Y");
        reveal_strlit("YTD");
        if a.label_spec() == b.label_spec() {
            assert(a.label_spec().len() == b.label_spec().len());
            assert(a.label_spec()[0] == b.label_spec()[0]);
            assert(a.label_spec()[1] == b.label_spec()[1]);
        }
    }

    /// Reading the label of an interval gives the interval back.
    pub proof fn lemma_label_round_trip(interval: Interval)
        ensures
            Self::parse_spec(interval.label_spec()) == Some(interval),
    {
        Self::lemma_labels_distinct(interval, Interval::Day);
        Self::lemma_labels_distinct(interval, Interval::Week);
        Self::lemma_labels_distinct(interval, Interval::Month);
        Self::lemma_labels_distinct(interval, Interval::ThreeMonth);
        Self::lemma_labels_distinct(interval, Interval::SixMonth);
        Self::lemma_labels_distinct(interval, Interval::Year);
        Self::lemma_labels_distinct(interval, Interval::TwoYear);
        Self::lemma_labels_distinct(interval, Interval::FiveYear);
        Self::lemma_labels_distinct(interval, Interval::YearToDay);
    }

    /// The interval that `text` is the label of: `1D`, `1W`, `1M`, `3M`, `6M`,
    /// `1Y`, `2Y`, `5Y` or `YTD`. Any other text is the label of none.
    pub fn parse(text: &str) -> (parsed: Option<Interval>)
        ensures
            parsed == Self::parse_spec(text@),
            parsed matches Some(interval) ==> interval.label_spec() == text@,
            parsed is None ==> forall|other: Interval| other.label_spec() != text@,
    {
        if text_is(text, "1D") {
            Some(Interval::Day)
        } else if text_is(text, "1W") {
            Some(Interval::Week)
        } else if text_is(text, "1M") {
            Some(Interval::Month)
        } else if text_is(text, "3M") {
            Some(Interval::ThreeMonth)
        } else if text_is(text, "6M") {
            Some(Interval::SixMonth)
        } else if text_is(text, "1Y") {
            Some(Interval::Year)
        } else if text_is(text, "2Y") {
            Some(Interval::TwoYear)
        } else if text_is(text, "5Y") {
            Some(Interval::FiveYear)
        } else if text_is(text, "YTD") {
            Some(Interval::YearToDay)
        } else {
            None
        }
    }
}

impl TryFrom<String> for Interval {
    type Error = ();

    /// The interval that `value` is the label of.
    fn try_from(value: String) -> (parsed: Result<Self, Self::Error>) {
        match Interval::parse(value.as_str()) {
            Some(interval) => Ok(interval),
            None => Err(()),
        }
    }
}

impl vstd::std_specs::convert::TryFromSpecImpl<String> for Interval {
    open spec fn obeys_try_from_spec() -> bool {
        true
    }

    open spec fn try_from_spec(value: String) -> Result<Self, ()> {
        match Interval::parse_spec(value@) {
            Some(interval) => Ok(interval),
            None => Err(()),
        }
    }
}

impl From<&Interval> for String {
    /// The label of `interval`.
    fn from(interval: &Interval) -> (text: String)
        ensures
            text@ == interval.label_spec(),
    {
        interval.label().to_owned()
    }
}

impl vstd::std_specs::convert::FromSpecImpl<&Interval> for String {
    open spec fn obeys_from_spec() -> bool {
        false
    }

    open spec fn from_spec(interval: &Interval) -> String {
        arbitrary()
    }
}

/// One run of text of the selector, and whether it is shown highlighted.
#[derive(Clone, Debug, PartialEq, Eq)]
pub struct Segment {
    pub text: String,
    pub highlighted: bool,
}

impl View for Segment {
    type V = (Seq<char>, bool);

    open spec fn view(&self) -> (Seq<char>, bool) {
        (self.text@, self.highlighted)
    }
}

/// The models of a sequence of segments.
pub open spec fn segment_views(segments: Seq<Segment>) -> Seq<(Seq<char>, bool)> {
    Seq::new(segments.len(), |i: int| segments[i]@)
}

/// The selector of the interval: the labels of all intervals in one line,
/// the selected one highlighted.
pub struct IntervalWidget {}

impl IntervalWidget {
    /// The text that stands between two labels.
    pub open spec fn separator() -> Seq<char> {
        "  |  "@
    }

    /// The line of the selector when `selected` is the current interval: at
    /// the even positions the labels of the nine intervals in their order,
    /// highlighted where the interval is the selected one; between them, at
    /// the odd positions, the separator, never highlighted.
    pub open spec fn segments_spec(selected: Interval) -> Seq<(Seq<char>, bool)> {
        Seq::new(
            17,
            |i: int|
                if i % 2 == 0 {
                    (Interval::nth_spec(i / 2).label_spec(), Interval::nth_spec(i / 2) == selected)
                } else {
                    (Self::separator(), false)
                },
        )
    }

    /// The line of the selector when `selected` is the current interval.
    pub fn segments(&self, selected: &Interval) -> (line: Vec<Segment>)
        ensures
            segment_views(line@) == Self::segments_spec(*selected),
    {
        let mut line: Vec<Segment> = Vec::new();
        let mut i: usize = 0;
        while i < INTERVAL_COUNT
            invariant
                i <= INTERVAL_COUNT,
                line@.len() == if i == 0 {
                    0int
                } else {
                    2 * i - 1
                },
                forall|k: int|
                    0 <= k < line@.len() ==> (#[trigger] line@[k])@ == Self::segments_spec(
                        *selected,
                    )[k],
            decreases INTERVAL_COUNT - i,
        {
            if i > 0 {
                line.push(Segment { text: "  |  ".to_owned(), highlighted: false });
            }
            let interval = Interval::nth(i);
            let highlighted: bool = interval == *selected;
            line.push(Segment { text: interval.label().to_owned(), highlighted });
            i = i + 1;
        }
        assert(segment_views(line@) =~= Self::segments_spec(*selected));
        line
    }
}

} // verus!
