//! Breathing patterns and the configuration that names them.

use vstd::prelude::*;
use vstd::hash_map::StringHashMap;
use vstd::string::StringExecFns;
use crate::text::{
    count, decimal, find_only, first_index, is_digit, is_first_index, is_whitespace,
    lemma_count_concat, lemma_count_none, lemma_decimal_is_digits, lemma_decimal_reads_back,
    lemma_first_index_unique, lemma_without_spaces_of_none, parse_u64, parse_u64_in, range_is,
    strip_spaces, to_chars, trim, trim_bounds, trim_end, trim_start, u64_to_string,
    without_spaces,
};

verus! {

/// How long a session lasts: a number of seconds, or a number of full
/// breathing cycles.
#[derive(Debug, Clone, Copy, PartialEq, Eq, Structural)]
pub enum PatternLength {
    Time(u64),
    Iterations(u64),
}

impl PatternLength {
    /// Whether the length counts full cycles.
    pub fn _is_iterations(&self) -> (r: bool)
        ensures
            r == (*self is Iterations),
    {
        matches!(self, PatternLength::Iterations(_))
    }

    /// Whether the length counts seconds.
    pub fn _is_time(&self) -> (r: bool)
        ensures
            r == (*self is Time),
    {
        matches!(self, PatternLength::Time(_))
    }

    /// The number that the length carries, whatever its unit.
    pub open spec fn spec_duration(self) -> u64 {
        match self {
            PatternLength::Time(d) => d,
            PatternLength::Iterations(d) => d,
        }
    }

    /// The number that the length carries, whatever its unit.
    pub fn _duration(&self) -> (d: u64)
        ensures
            d == self.spec_duration(),
    {
        match self {
            PatternLength::Time(d) => *d,
            PatternLength::Iterations(d) => *d,
        }
    }

    /// The length as it is written: its unit, an equals sign, its number.
    pub open spec fn text(self) -> Seq<char> {
        match self {
            PatternLength::Time(d) => "Time="@ + decimal(d as nat),
            PatternLength::Iterations(d) => "Iterations="@ + decimal(d as nat),
        }
    }

    /// The length as it is written, such as `Time=60`.
    pub fn to_string(&self) -> (r: String)
        ensures
            r@ == self.text(),
    {
        match self {
            PatternLength::Time(d) => String::from_str("Time=").concat(u64_to_string(*d).as_str()),
            PatternLength::Iterations(d) => String::from_str("Iterations=").concat(
                u64_to_string(*d).as_str(),
            ),
        }
    }

    /// Reads a length written as a unit, an equals sign and a number, such
    /// as `time = 20` or `Iterations=5`. Spaces count nowhere, and neither
    /// does other white space at either end.
    pub fn from_str(src: &str) -> (r: Result<PatternLength, ParseError>)
        ensures
            r == parse_pattern_length(src@),
    {
        let chars = strip_spaces(&to_chars(src));
        let (start, end) = trim_bounds(&chars);
        let ghost text = chars@.subrange(start as int, end as int);
        let at = match find_only(&chars, start, end, '=') {
            Some(at) => at,
            None => { return Err(ParseError::NoSeparator); },
        };
        proof {
            assert(text.take(at - start) == chars@.subrange(start as int, at as int));
            assert(text.skip(at - start + 1) == chars@.subrange(at + 1, end as int));
        }
        let duration = match parse_u64_in(&chars, at + 1, end) {
            Some(duration) => duration,
            None => { return Err(ParseError::InvalidDuration); },
        };
        if range_is(&chars, start, at, "time") || range_is(&chars, start, at, "Time") {
            Ok(PatternLength::Time(duration))
        } else if range_is(&chars, start, at, "iterations") || range_is(
            &chars,
            start,
            at,
            "Iterations",
        ) || range_is(&chars, start, at, "iteration") || range_is(&chars, start, at, "Iteration") {
            Ok(PatternLength::Iterations(duration))
        } else {
            Err(ParseError::UnknownUnit)
        }
    }
}

impl std::str::FromStr for PatternLength {
    type Err = ParseError;

    fn from_str(src: &str) -> (r: Result<PatternLength, ParseError>)
        ensures
            r == parse_pattern_length(src@),
    {
        PatternLength::from_str(src)
    }
}

/// Why a text is no pattern length.
#[derive(Debug, Clone, Copy, PartialEq, Eq, Structural)]
pub enum ParseError {
    /// The text does not hold exactly one equals sign.
    NoSeparator,
    /// What follows the equals sign is no number that fits in a `u64`.
    InvalidDuration,
    /// What stands before the equals sign names no unit.
    UnknownUnit,
}

/// `word` names the unit of seconds.
pub open spec fn names_time(word: Seq<char>) -> bool {
    word == "time"@ || word == "Time"@
}

/// `word` names the unit of full cycles.
pub open spec fn names_iterations(word: Seq<char>) -> bool {
    word == "iterations"@ || word == "Iterations"@ || word == "iteration"@ || word
        == "Iteration"@
}

/// What a text means as a pattern length. With the spaces taken out and
/// the white space at both ends cut off, the text must hold exactly one
/// equals sign; what follows it must be a number; what stands before it must
/// name a unit. The failures are tried in that order.
pub open spec fn parse_pattern_length(src: Seq<char>) -> Result<PatternLength, ParseError> {
    let text = trim(without_spaces(src));
    if count(text, '=') != 1 {
        Err(ParseError::NoSeparator)
    } else {
        let at = first_index(text, '=');
        let unit = text.take(at);
        match parse_u64(text.skip(at + 1)) {
            None => Err(ParseError::InvalidDuration),
            Some(duration) => if names_time(unit) {
                Ok(PatternLength::Time(duration))
            } else if names_iterations(unit) {
                Ok(PatternLength::Iterations(duration))
            } else {
                Err(ParseError::UnknownUnit)
            },
        }
    }
}

/// A length that is written out reads back as itself.
pub proof fn lemma_text_reads_back(length: PatternLength)
    ensures
        parse_pattern_length(length.text()) == Ok::<PatternLength, ParseError>(length),
{
    reveal_strlit("Time=");
    reveal_strlit("Iterations=");
    reveal_strlit("Time");
    reveal_strlit("Iterations");
    reveal_strlit("time");
    let number = decimal(length.spec_duration() as nat);
    let unit = match length {
        PatternLength::Time(_) => "Time"@,
        PatternLength::Iterations(_) => "Iterations"@,
    };
    let head = unit.push('=');
    let text = length.text();
    lemma_decimal_is_digits(length.spec_duration() as nat);
    lemma_decimal_reads_back(length.spec_duration());
    assert(text =~= head + number);
    assert forall|i: int| 0 <= i < text.len() implies text[i] != ' ' && !is_whitespace(
        #[trigger] text[i],
    ) by {
        if i >= head.len() {
            assert(is_digit(number[i - head.len()]));
        }
    }
    lemma_without_spaces_of_none(text);
    assert(trim_start(text) == text);
    assert(trim_end(text) == text);
    assert(count(head, '=') == 1) by {
        assert(head.drop_last() =~= unit);
        lemma_count_none(unit, '=');
    }
    assert(count(number, '=') == 0) by {
        assert forall|i: int| 0 <= i < number.len() implies number[i] != '=' by {
            assert(is_digit(number[i]));
        }
        lemma_count_none(number, '=');
    }
    lemma_count_concat(head, number, '=');
    let at = unit.len() as int;
    assert(is_first_index(text, '=', at));
    lemma_first_index_unique(text, '=', at);
    assert(text.take(at) =~= unit);
    assert(text.skip(at + 1) =~= number);
    assert("Time"@ != "time"@) by {
        assert("Time"@[0] != "time"@[0]);
    }
}

/// A breathing pattern: the seconds to breathe in, hold, breathe out and
/// hold again, with a description and, optionally, its own session length.
/// A hold that is absent is a hold of zero seconds.
#[derive(Debug)]
pub struct Pattern {
    pub breath_in: u64,
    pub hold_in: Option<u64>,
    pub breath_out: u64,
    pub hold_out: Option<u64>,
    pub description: String,
    pub pattern_length: Option<PatternLength>,
}

/// The mathematical value of a [`Pattern`].
pub struct PatternView {
    pub breath_in: nat,
    pub hold_in: Option<nat>,
    pub breath_out: nat,
    pub hold_out: Option<nat>,
    pub description: Seq<char>,
    pub pattern_length: Option<PatternLength>,
}

/// An optional duration, with absence read as zero.
pub open spec fn or_zero(d: Option<nat>) -> nat {
    match d {
        Some(n) => n,
        None => 0,
    }
}

/// The view of an optional duration.
pub open spec fn duration_view(d: Option<u64>) -> Option<nat> {
    match d {
        Some(n) => Some(n as nat),
        None => None,
    }
}

impl PatternView {
    /// The seconds that one full cycle of the pattern takes.
    pub open spec fn length(self) -> nat {
        self.breath_in + self.breath_out + or_zero(self.hold_in) + or_zero(self.hold_out)
    }

    /// The four durations in the order they are breathed, with hyphens
    /// between them, such as `4-7-8-0`.
    pub open spec fn short_string(self) -> Seq<char> {
        decimal(self.breath_in) + "-"@ + decimal(or_zero(self.hold_in)) + "-"@ + decimal(
            self.breath_out,
        ) + "-"@ + decimal(or_zero(self.hold_out))
    }

    /// The pattern's own session length in words, such as `300 seconds`;
    /// empty where the pattern has none.
    pub open spec fn short_session_string(self) -> Seq<char> {
        match self.pattern_length {
            Some(PatternLength::Time(d)) => decimal(d as nat) + " seconds"@,
            Some(PatternLength::Iterations(d)) => decimal(d as nat) + " iterations"@,
            None => Seq::empty(),
        }
    }

    /// The line that lists the pattern under `name`.
    pub open spec fn list_entry(self, name: Seq<char>) -> Seq<char> {
        name + " ["@ + self.short_string() + "] ["@ + self.short_session_string() + "]: "@
            + self.description
    }

    /// The pattern with the session length that holds for it: the one
    /// `chosen`, else its own, else `default`.
    pub open spec fn with_length(
        self,
        chosen: Option<PatternLength>,
        default: PatternLength,
    ) -> PatternView {
        PatternView {
            pattern_length: Some(
                match chosen {
                    Some(length) => length,
                    None => match self.pattern_length {
                        Some(length) => length,
                        None => default,
                    },
                },
            ),
            ..self
        }
    }

    /// A pattern can be breathed only if both breaths take time.
    pub open spec fn is_valid(self) -> bool {
        self.breath_in > 0 && self.breath_out > 0
    }
}

impl View for Pattern {
    type V = PatternView;

    open spec fn view(&self) -> PatternView {
        PatternView {
            breath_in: self.breath_in as nat,
            hold_in: duration_view(self.hold_in),
            breath_out: self.breath_out as nat,
            hold_out: duration_view(self.hold_out),
            description: self.description@,
            pattern_length: self.pattern_length,
        }
    }
}

impl Clone for Pattern {
    fn clone(&self) -> (r: Self)
        ensures
            r@ == self@,
    {
        Pattern {
            breath_in: self.breath_in,
            hold_in: self.hold_in,
            breath_out: self.breath_out,
            hold_out: self.hold_out,
            description: self.description.clone(),
            pattern_length: self.pattern_length,
        }
    }
}

impl Pattern {
    /// The seconds that one full cycle of the pattern takes.
    pub fn length(&self) -> (r: u64)
        requires
            self@.length() <= u64::MAX,
        ensures
            r == self@.length(),
    {
        let hold_in: u64 = match self.hold_in {
            Some(h) => h,
            None => 0,
        };
        let hold_out: u64 = match self.hold_out {
            Some(h) => h,
            None => 0,
        };
        self.breath_in + self.breath_out + hold_in + hold_out
    }

    /// Whether both breaths of the pattern take time.
    pub fn is_valid(&self) -> (r: bool)
        ensures
            r == self@.is_valid(),
    {
        self.breath_in > 0 && self.breath_out > 0
    }

    /// The four durations with hyphens between them, such as `4-7-8-0`.
    pub fn get_short_string(&self) -> (r: String)
        ensures
            r@ == self@.short_string(),
    {
        let hold_in: u64 = match self.hold_in {
            Some(h) => h,
            None => 0,
        };
        let hold_out: u64 = match self.hold_out {
            Some(h) => h,
            None => 0,
        };
        let mut r = u64_to_string(self.breath_in);
        r.append("-");
        r.append(u64_to_string(hold_in).as_str());
        r.append("-");
        r.append(u64_to_string(self.breath_out).as_str());
        r.append("-");
        r.append(u64_to_string(hold_out).as_str());
        r
    }

    /// The pattern's own session length in words; empty where it has none.
    pub fn get_short_session_string(&self) -> (r: String)
        ensures
            r@ == self@.short_session_string(),
    {
        match self.pattern_length {
            Some(PatternLength::Time(d)) => u64_to_string(d).concat(" seconds"),
            Some(PatternLength::Iterations(d)) => u64_to_string(d).concat(" iterations"),
            None => String::new(),
        }
    }

    /// The line that lists the pattern under `name`: the name, the
    /// durations, the session length and the description.
    pub fn list_entry(&self, name: &str) -> (r: String)
        ensures
            r@ == self@.list_entry(name@),
    {
        let mut r = String::from_str(name);
        r.append(" [");
        r.append(self.get_short_string().as_str());
        r.append("] [");
        r.append(self.get_short_session_string().as_str());
        r.append("]: ");
        r.append(self.description.as_str());
        r
    }
}

/// Why a configuration yields no pattern.
#[derive(Debug, Clone, Copy, PartialEq, Eq, Structural)]
pub enum ConfigError {
    /// The configuration holds no pattern of the name asked for.
    PatternNotFound,
}

/// The patterns that a configuration file names, and the session length
/// for those that bring none of their own.
pub struct Config {
    patterns: StringHashMap<Pattern>,
    pub pattern_length: PatternLength,
}

/// The mathematical value of a [`Config`].
pub struct ConfigView {
    pub patterns: Map<Seq<char>, PatternView>,
    pub pattern_length: PatternLength,
}

impl View for Config {
    type V = ConfigView;

    closed spec fn view(&self) -> ConfigView {
        ConfigView {
            patterns: self.patterns@.map_values(|p: Pattern| p@),
            pattern_length: self.pattern_length,
        }
    }
}

impl Config {
    /// A configuration without patterns.
    pub fn new(pattern_length: PatternLength) -> (config: Config)
        ensures
            config@ == (ConfigView { patterns: Map::empty(), pattern_length }),
    {
        let config = Config { patterns: StringHashMap::new(), pattern_length };
        assert(config@.patterns =~= Map::empty());
        config
    }

    /// Puts `pattern` under `name`, in place of what stood there.
    pub fn insert(&mut self, name: String, pattern: Pattern)
        ensures
            final(self)@ == (ConfigView {
                patterns: old(self)@.patterns.insert(name@, pattern@),
                ..old(self)@
            }),
    {
        self.patterns.insert(name, pattern);
        assert(self@.patterns =~= old(self)@.patterns.insert(name@, pattern@));
    }

    /// Whether a pattern stands under `name`.
    pub fn contains_pattern(&self, name: &str) -> (r: bool)
        ensures
            r == self@.patterns.contains_key(name@),
    {
        self.patterns.contains_key(name)
    }

    /// The pattern called `pattern_name`, with the session length that
    /// holds for it: `opt_pattern_length` where that is given, else the
    /// pattern's own, else the configuration's.
    pub fn compute_pattern(
        &self,
        pattern_name: &str,
        opt_pattern_length: Option<PatternLength>,
    ) -> (r: Result<Pattern, ConfigError>)
        ensures
            match r {
                Ok(pattern) => {
                    &&& self@.patterns.contains_key(pattern_name@)
                    &&& pattern@ == self@.patterns[pattern_name@].with_length(
                        opt_pattern_length,
                        self@.pattern_length,
                    )
                },
                Err(e) => e == ConfigError::PatternNotFound && !self@.patterns.contains_key(
                    pattern_name@,
                ),
            },
    {
        let mut result = match self.patterns.get(pattern_name) {
            Some(pattern) => pattern.clone(),
            None => { return Err(ConfigError::PatternNotFound); },
        };
        result.pattern_length = Some(
            match opt_pattern_length {
                Some(length) => length,
                None => match result.pattern_length {
                    Some(length) => length,
                    None => self.pattern_length,
                },
            },
        );
        Ok(result)
    }
}

} // verus!
