//! Parsed entries, parsing errors, and report formatting.

use vstd::prelude::*;
use crate::tokens::{tokenize, tokens_of};

verus! {

/// One parsed time-tracking entry: five opaque string fields, taken in
/// order from the first five tokens of an input line.
#[derive(Debug)]
pub struct Log {
    pub name: String,
    pub date_init: String,
    pub time_init: String,
    pub date_fin: String,
    pub time_fin: String,
}

/// The mathematical value of a `Log`: its five fields as character
/// sequences.
pub struct LogView {
    pub name: Seq<char>,
    pub date_init: Seq<char>,
    pub time_init: Seq<char>,
    pub date_fin: Seq<char>,
    pub time_fin: Seq<char>,
}

impl View for Log {
    type V = LogView;

    open spec fn view(&self) -> LogView {
        LogView {
            name: self.name@,
            date_init: self.date_init@,
            time_init: self.time_init@,
            date_fin: self.date_fin@,
            time_fin: self.time_fin@,
        }
    }
}

/// The entry built from the first five tokens of a line.
pub open spec fn log_of_tokens(toks: Seq<Seq<char>>) -> LogView {
    LogView {
        name: toks[0],
        date_init: toks[1],
        time_init: toks[2],
        date_fin: toks[3],
        time_fin: toks[4],
    }
}

/// An entry is trivial when its start and end timestamps coincide;
/// trivial entries are dropped from the report.
pub open spec fn is_trivial(log: LogView) -> bool {
    log.date_init == log.date_fin && log.time_init == log.time_fin
}

/// The report line for an entry: the fixed organization tag, the name,
/// the fixed group tag, then the four timestamp fields, space-separated.
pub open spec fn formatted_line(log: LogView) -> Seq<char> {
    "고에너지물리계산 박찬범 "@ + log.name + " IBS CTPU "@ + log.date_init + " "@ + log.time_init
        + " "@ + log.date_fin + " "@ + log.time_fin
}

impl Log {
    /// Renders this entry as its report line.
    pub fn format_line(&self) -> (r: String)
        ensures
            r@ == formatted_line(self@),
    {
        let mut r = "고에너지물리계산 박찬범 ".to_owned();
        r.append(self.name.as_str());
        r.append(" IBS CTPU ");
        r.append(self.date_init.as_str());
        r.append(" ");
        r.append(self.time_init.as_str());
        r.append(" ");
        r.append(self.date_fin.as_str());
        r.append(" ");
        r.append(self.time_fin.as_str());
        proof {
            assert(r@ =~= formatted_line(self@));
        }
        r
    }
}

/// A fatal parsing failure; any such failure aborts the whole run.
#[derive(Debug)]
pub enum ParserError {
    /// A line had fewer than five tokens; holds the name of the first
    /// missing field.
    MissingEntry(String),
    /// A token could not be converted to its field's type; holds the
    /// offending token.
    ConversionError(String),
}

/// The human-readable description of a parsing failure.
pub open spec fn spec_message(e: ParserError) -> Seq<char> {
    match e {
        ParserError::MissingEntry(entry) => "Missing entry '"@ + entry@ + "'"@,
        ParserError::ConversionError(entry) => "Failed to convert to a number: '"@ + entry@
            + "'"@,
    }
}

impl ParserError {
    /// Renders this failure's description.
    pub fn message(&self) -> (r: String)
        ensures
            r@ == spec_message(*self),
    {
        match self {
            ParserError::MissingEntry(entry) => {
                let mut r = "Missing entry '".to_owned();
                r.append(entry.as_str());
                r.append("'");
                proof {
                    assert(r@ =~= spec_message(*self));
                }
                r
            },
            ParserError::ConversionError(entry) => {
                let mut r = "Failed to convert to a number: '".to_owned();
                r.append(entry.as_str());
                r.append("'");
                proof {
                    assert(r@ =~= spec_message(*self));
                }
                r
            },
        }
    }
}

/// Converts one optional token into one field value. Fields are opaque
/// strings, so the conversion itself cannot fail; an absent token is a
/// `MissingEntry` failure naming the field.
pub fn parse(name: &str, text: Option<&str>) -> (r: Result<String, ParserError>)
    ensures
        match text {
            Some(t) => r matches Ok(s) && s@ == t@,
            None => r matches Err(e) && e matches ParserError::MissingEntry(f) && f@ == name@,
        },
{
    match text {
        Some(t) => Ok(t.to_owned()),
        None => Err(ParserError::MissingEntry(name.to_owned())),
    }
}

/// The names of the five fields, in the order they are read from a line.
pub open spec fn field_names() -> Seq<Seq<char>> {
    seq!["name"@, "date_init"@, "time_init"@, "date_fin"@, "time_fin"@]
}

/// The name of the first field a short line lacks: the field at the
/// position of the first absent token.
pub open spec fn missing_field_name(toks: Seq<Seq<char>>) -> Seq<char> {
    field_names()[toks.len() as int]
}

/// The token at position `i`, if the line has that many.
fn token_at<'a>(toks: &'a Vec<String>, i: usize) -> (r: Option<&'a str>)
    ensures
        match r {
            Some(t) => i < toks@.len() && t@ == toks@[i as int]@,
            None => i >= toks@.len(),
        },
{
    if i < toks.len() {
        Some(toks[i].as_str())
    } else {
        None
    }
}

/// Parses one line into an entry: splits it into tokens and takes the
/// first five as the fields, ignoring any further tokens. A line with
/// fewer than five tokens fails with a `MissingEntry` naming the first
/// missing field.
pub fn parse_log(line: &str) -> (r: Result<Log, ParserError>)
    ensures
        ({
            let toks = tokens_of(line@);
            if toks.len() >= 5 {
                r matches Ok(log) && log@ == log_of_tokens(toks)
            } else {
                r matches Err(e) && e matches ParserError::MissingEntry(f) && f@
                    == missing_field_name(toks)
            }
        }),
{
    let toks = tokenize(line);
    let name = match parse("name", token_at(&toks, 0)) {
        Ok(v) => v,
        Err(e) => { return Err(e) },
    };
    let date_init = match parse("date_init", token_at(&toks, 1)) {
        Ok(v) => v,
        Err(e) => { return Err(e) },
    };
    let time_init = match parse("time_init", token_at(&toks, 2)) {
        Ok(v) => v,
        Err(e) => { return Err(e) },
    };
    let date_fin = match parse("date_fin", token_at(&toks, 3)) {
        Ok(v) => v,
        Err(e) => { return Err(e) },
    };
    let time_fin = match parse("time_fin", token_at(&toks, 4)) {
        Ok(v) => v,
        Err(e) => { return Err(e) },
    };
    Ok(Log { name, date_init, time_init, date_fin, time_fin })
}

} // verus!
