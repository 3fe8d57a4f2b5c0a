use vstd::prelude::*;
use vstd::string::StringSliceAdditionalSpecFns;

use crate::ext::{civil_time, unix_civil_time};
use crate::level::{level_name, push_level_name, LogLevel};
use crate::text::{
    dec_digits, dec_padded, push_bytes, push_dec_padded, push_dec_u64, text, Token,
};

verus! {

/// One piece of a parsed pattern.
pub enum Segment {
    Literal(Vec<u8>),
    Year,
    Month,
    Day,
    Hour,
    Minute,
    Second,
    WholeSecs,
    FracSec,
    Level,
    File,
    Line,
    Body,
}

/// A segment with its literal text as a byte sequence.
pub enum SegmentSpec {
    Literal(Seq<u8>),
    Year,
    Month,
    Day,
    Hour,
    Minute,
    Second,
    WholeSecs,
    FracSec,
    Level,
    File,
    Line,
    Body,
}

pub open spec fn segment_view(s: Segment) -> SegmentSpec {
    match s {
        Segment::Literal(b) => SegmentSpec::Literal(b@),
        Segment::Year => SegmentSpec::Year,
        Segment::Month => SegmentSpec::Month,
        Segment::Day => SegmentSpec::Day,
        Segment::Hour => SegmentSpec::Hour,
        Segment::Minute => SegmentSpec::Minute,
        Segment::Second => SegmentSpec::Second,
        Segment::WholeSecs => SegmentSpec::WholeSecs,
        Segment::FracSec => SegmentSpec::FracSec,
        Segment::Level => SegmentSpec::Level,
        Segment::File => SegmentSpec::File,
        Segment::Line => SegmentSpec::Line,
        Segment::Body => SegmentSpec::Body,
    }
}

/// The segment that specifier letter `c` (after a `%`) selects, if it is one of
/// `Y m d H M S s f l F L v`.
pub open spec fn specifier(c: u8) -> Option<SegmentSpec> {
    if c == 89 {
        Some(SegmentSpec::Year)
    } else if c == 109 {
        Some(SegmentSpec::Month)
    } else if c == 100 {
        Some(SegmentSpec::Day)
    } else if c == 72 {
        Some(SegmentSpec::Hour)
    } else if c == 77 {
        Some(SegmentSpec::Minute)
    } else if c == 83 {
        Some(SegmentSpec::Second)
    } else if c == 115 {
        Some(SegmentSpec::WholeSecs)
    } else if c == 102 {
        Some(SegmentSpec::FracSec)
    } else if c == 108 {
        Some(SegmentSpec::Level)
    } else if c == 70 {
        Some(SegmentSpec::File)
    } else if c == 76 {
        Some(SegmentSpec::Line)
    } else if c == 118 {
        Some(SegmentSpec::Body)
    } else {
        None
    }
}

/// The pending literal as a segment, if it is not empty.
pub open spec fn flush(lit: Seq<u8>) -> Seq<SegmentSpec> {
    if lit.len() > 0 {
        seq![SegmentSpec::Literal(lit)]
    } else {
        Seq::empty()
    }
}

/// Parses pattern bytes `p` from position `i` with literal text `lit` pending:
/// `%` followed by a byte ends the pending literal; a specifier letter becomes its
/// segment, any other byte starts a new literal with `%` and that byte; every other
/// byte joins the pending literal.
pub open spec fn parse_pattern(p: Seq<u8>, i: nat, lit: Seq<u8>) -> Seq<SegmentSpec>
    decreases p.len() - i,
{
    if i >= p.len() {
        flush(lit)
    } else if p[i as int] == 37 && i + 1 < p.len() {
        match specifier(p[i + 1 as int]) {
            Some(seg) => flush(lit) + seq![seg] + parse_pattern(p, i + 2, Seq::empty()),
            None => flush(lit) + parse_pattern(p, i + 2, seq![37u8, p[i + 1 as int]]),
        }
    } else {
        parse_pattern(p, i + 1, lit.push(p[i as int]))
    }
}

/// A pattern-based log line formatter: `%`-specifiers select parts of the record,
/// other text is copied.
pub struct PatternFormatter {
    pub segments: Vec<Segment>,
}

/// What `PatternFormatter::format` renders: the message's time, level, location and body.
pub struct FormattedRecord<'a> {
    pub timestamp_secs: u64,
    pub timestamp_nanos: u32,
    pub level: &'a LogLevel,
    pub file: &'a str,
    pub line: u32,
    pub body: &'a [Token],
}

impl PatternFormatter {
    pub open spec fn view_segments(&self) -> Seq<SegmentSpec> {
        self.segments@.map_values(|s: Segment| segment_view(s))
    }

    /// Parses `pattern` into segments.
    pub fn new(pattern: &str) -> (r: Self)
        ensures
            r.view_segments() == parse_pattern(pattern.spec_bytes(), 0, Seq::empty()),
    {
        let p = pattern.as_bytes();
        let mut segments: Vec<Segment> = Vec::new();
        let mut literal: Vec<u8> = Vec::new();
        let mut i: usize = 0;
        let ghost target = parse_pattern(p@, 0, Seq::empty());
        while i < p.len()
            invariant
                i <= p@.len(),
                segments@.map_values(|s: Segment| segment_view(s)) + parse_pattern(p@, i as nat, literal@) == target,
            decreases p.len() - i,
        {
            let ghost before = segments@.map_values(|s: Segment| segment_view(s));
            if p[i] == 37 && i + 1 < p.len() {
                let ghost lit0 = literal@;
                if literal.len() > 0 {
                    let mut taken: Vec<u8> = Vec::new();
                    std::mem::swap(&mut taken, &mut literal);
                    segments.push(Segment::Literal(taken));
                }
                assert(segments@.map_values(|s: Segment| segment_view(s)) =~= before + flush(lit0));
                let c = p[i + 1];
                let ghost mid = segments@.map_values(|s: Segment| segment_view(s));
                let seg = if c == 89 {
                    Some(Segment::Year)
                } else if c == 109 {
                    Some(Segment::Month)
                } else if c == 100 {
                    Some(Segment::Day)
                } else if c == 72 {
                    Some(Segment::Hour)
                } else if c == 77 {
                    Some(Segment::Minute)
                } else if c == 83 {
                    Some(Segment::Second)
                } else if c == 115 {
                    Some(Segment::WholeSecs)
                } else if c == 102 {
                    Some(Segment::FracSec)
                } else if c == 108 {
                    Some(Segment::Level)
                } else if c == 70 {
                    Some(Segment::File)
                } else if c == 76 {
                    Some(Segment::Line)
                } else if c == 118 {
                    Some(Segment::Body)
                } else {
                    None
                };
                match seg {
                    Some(s) => {
                        proof {
                            assert(specifier(c) == Some(segment_view(s)));
                        }
                        segments.push(s);
                        assert(segments@.map_values(|s: Segment| segment_view(s)) =~= mid.push(segment_view(s)));
                        literal = Vec::new();
                        assert(literal@ =~= Seq::<u8>::empty());
                        assert(mid + seq![segment_view(s)] =~= mid.push(segment_view(s)));
                    },
                    None => {
                        literal = Vec::new();
                        literal.push(37);
                        literal.push(c);
                        assert(literal@ =~= seq![37u8, c]);
                    },
                }
                i = i + 2;
            } else {
                literal.push(p[i]);
                i = i + 1;
            }
        }
        let ghost before = segments@.map_values(|s: Segment| segment_view(s));
        let ghost lit0 = literal@;
        if literal.len() > 0 {
            segments.push(Segment::Literal(literal));
        }
        assert(segments@.map_values(|s: Segment| segment_view(s)) =~= before + flush(lit0));
        PatternFormatter { segments }
    }
}


/// A year rendered with at least 4 characters: zero-padded, and with the sign counted
/// in the width for negative years.
pub open spec fn year_text(y: int) -> Seq<u8> {
    if y < 0 {
        seq![45u8] + dec_padded((-y) as nat, 3)
    } else {
        dec_padded(y as nat, 4)
    }
}

/// A `u64` reinterpreted as an `i64` (two's complement).
pub open spec fn wrap_i64(v: u64) -> i64 {
    if v <= i64::MAX {
        v as i64
    } else {
        (v - 0x1_0000_0000_0000_0000) as i64
    }
}

/// The text of one segment for a record; date and time fields come from `civil`,
/// and render as `?` marks when it is `None`.
pub open spec fn render_segment(
    seg: SegmentSpec,
    secs: u64,
    nanos: u32,
    level: LogLevel,
    file: Seq<u8>,
    line: u32,
    body: Seq<Token>,
    civil: Option<(i32, u8, u8, u8, u8, u8)>,
) -> Seq<Token> {
    let qq = text(seq![63u8, 63u8]);
    match seg {
        SegmentSpec::Literal(b) => text(b),
        SegmentSpec::Year => match civil {
            Some(c) => text(year_text(c.0 as int)),
            None => text(seq![63u8, 63u8, 63u8, 63u8]),
        },
        SegmentSpec::Month => match civil {
            Some(c) => text(dec_padded(c.1 as nat, 2)),
            None => qq,
        },
        SegmentSpec::Day => match civil {
            Some(c) => text(dec_padded(c.2 as nat, 2)),
            None => qq,
        },
        SegmentSpec::Hour => match civil {
            Some(c) => text(dec_padded(c.3 as nat, 2)),
            None => qq,
        },
        SegmentSpec::Minute => match civil {
            Some(c) => text(dec_padded(c.4 as nat, 2)),
            None => qq,
        },
        SegmentSpec::Second => match civil {
            Some(c) => text(dec_padded(c.5 as nat, 2)),
            None => qq,
        },
        SegmentSpec::WholeSecs => text(dec_digits(secs as nat)),
        SegmentSpec::FracSec => text(dec_padded(nanos as nat, 9)),
        SegmentSpec::Level => text(level_name(level)),
        SegmentSpec::File => text(file),
        SegmentSpec::Line => text(dec_digits(line as nat)),
        SegmentSpec::Body => body,
    }
}

/// The texts of the first `n` segments, concatenated.
pub open spec fn render_segments(
    segs: Seq<SegmentSpec>,
    n: nat,
    secs: u64,
    nanos: u32,
    level: LogLevel,
    file: Seq<u8>,
    line: u32,
    body: Seq<Token>,
    civil: Option<(i32, u8, u8, u8, u8, u8)>,
) -> Seq<Token>
    decreases n,
{
    if n == 0 {
        Seq::empty()
    } else {
        render_segments(segs, (n - 1) as nat, secs, nanos, level, file, line, body, civil)
            + render_segment(segs[n - 1], secs, nanos, level, file, line, body, civil)
    }
}

fn push_qmarks(out: &mut Vec<Token>, n: usize)
    ensures
        n == 2 ==> final(out)@ == old(out)@ + text(seq![63u8, 63u8]),
        n == 4 ==> final(out)@ == old(out)@ + text(seq![63u8, 63u8, 63u8, 63u8]),
{
    let mut i: usize = 0;
    while i < n
        invariant
            i <= n,
            out@ == old(out)@ + Seq::new(i as nat, |j: int| Token::Byte(63)),
        decreases n - i,
    {
        out.push(Token::Byte(63));
        assert(out@ =~= old(out)@ + Seq::new((i + 1) as nat, |j: int| Token::Byte(63)));
        i = i + 1;
    }
    assert(text(seq![63u8, 63u8]) =~= Seq::new(2, |j: int| Token::Byte(63)));
    assert(text(seq![63u8, 63u8, 63u8, 63u8]) =~= Seq::new(4, |j: int| Token::Byte(63)));
}

fn push_year(out: &mut Vec<Token>, y: i32)
    ensures
        final(out)@ == old(out)@ + text(year_text(y as int)),
{
    if y < 0 {
        out.push(Token::Byte(45));
        let mag = (0i64 - y as i64) as u64;
        push_dec_padded(out, mag, 3);
        assert(final(out)@ =~= old(out)@ + text(year_text(y as int)));
    } else {
        push_dec_padded(out, y as u64, 4);
    }
}

fn as_i64_wrapping(v: u64) -> (r: i64)
    ensures
        r == wrap_i64(v),
{
    if v <= i64::MAX as u64 {
        v as i64
    } else {
        ((v as i128) - 0x1_0000_0000_0000_0000i128) as i64
    }
}

impl PatternFormatter {
    /// Renders a record by the pattern, its date and time fields read from the
    /// UTC calendar date and time of its timestamp.
    pub fn format(&self, record: &FormattedRecord<'_>) -> (r: Vec<Token>)
        ensures
            r@ == render_segments(
                self.view_segments(),
                self.segments@.len(),
                record.timestamp_secs,
                record.timestamp_nanos,
                *record.level,
                record.file.spec_bytes(),
                record.line,
                record.body@,
                civil_time(wrap_i64(record.timestamp_secs)),
            ),
    {
        let civil = unix_civil_time(as_i64_wrapping(record.timestamp_secs));
        self.format_with_civil(record, civil)
    }

    /// Renders a record by the pattern, its date and time fields (year, month,
    /// day, hour, minute, second) taken from `civil`, and shown as `?` marks when
    /// it is `None`.
    pub fn format_with_civil(&self, record: &FormattedRecord<'_>, civil: Option<(i32, u8, u8, u8, u8, u8)>) -> (r: Vec<Token>)
        ensures
            r@ == render_segments(
                self.view_segments(),
                self.segments@.len(),
                record.timestamp_secs,
                record.timestamp_nanos,
                *record.level,
                record.file.spec_bytes(),
                record.line,
                record.body@,
                civil,
            ),
    {
        let ghost segs = self.view_segments();
        let ghost body = record.body@;
        let ghost file = record.file.spec_bytes();
        let mut result: Vec<Token> = Vec::new();
        let mut i: usize = 0;
        while i < self.segments.len()
            invariant
                i <= self.segments@.len(),
                segs == self.view_segments(),
                body == record.body@,
                file == record.file.spec_bytes(),
                result@ == render_segments(segs, i as nat, record.timestamp_secs, record.timestamp_nanos, *record.level, file, record.line, body, civil),
            decreases self.segments.len() - i,
        {
            let ghost before = result@;
            match &self.segments[i] {
                Segment::Literal(b) => push_bytes(&mut result, b.as_slice()),
                Segment::Year => match civil {
                    Some(c) => push_year(&mut result, c.0),
                    None => push_qmarks(&mut result, 4),
                },
                Segment::Month => match civil {
                    Some(c) => push_dec_padded(&mut result, c.1 as u64, 2),
                    None => push_qmarks(&mut result, 2),
                },
                Segment::Day => match civil {
                    Some(c) => push_dec_padded(&mut result, c.2 as u64, 2),
                    None => push_qmarks(&mut result, 2),
                },
                Segment::Hour => match civil {
                    Some(c) => push_dec_padded(&mut result, c.3 as u64, 2),
                    None => push_qmarks(&mut result, 2),
                },
                Segment::Minute => match civil {
                    Some(c) => push_dec_padded(&mut result, c.4 as u64, 2),
                    None => push_qmarks(&mut result, 2),
                },
                Segment::Second => match civil {
                    Some(c) => push_dec_padded(&mut result, c.5 as u64, 2),
                    None => push_qmarks(&mut result, 2),
                },
                Segment::WholeSecs => push_dec_u64(&mut result, record.timestamp_secs),
                Segment::FracSec => push_dec_padded(&mut result, record.timestamp_nanos as u64, 9),
                Segment::Level => push_level_name(&mut result, *record.level),
                Segment::File => push_bytes(&mut result, record.file.as_bytes()),
                Segment::Line => push_dec_u64(&mut result, record.line as u64),
                Segment::Body => {
                    let mut j: usize = 0;
                    while j < record.body.len()
                        invariant
                            j <= record.body@.len(),
                            result@ == before + record.body@.subrange(0, j as int),
                        decreases record.body.len() - j,
                    {
                        result.push(record.body[j]);
                        assert(result@ =~= before + record.body@.subrange(0, j + 1));
                        j = j + 1;
                    }
                    assert(record.body@.subrange(0, j as int) =~= record.body@);
                },
            }
            i = i + 1;
        }
        result
    }
}

} // verus!
