//! The metadatum stream (`pedia.txt`) emitted by the engine during pass 1.
//!
//! The stream is line-oriented; lines end with `\n`, and one trailing `\r`
//! before the line end is ignored. Each line holds tokens separated by single
//! ASCII spaces; any token but the first may be empty, and no line may contain
//! a NUL character. The accepted forms are:
//!
//! - `output <filename>` — names the HTML file about to be written and
//!   establishes the "current entry" for subsequent definition lines;
//! - `indexdef <index> <entry> <fragment>` — declares that `(index, entry)`
//!   is defined within the current entry at the given fragment;
//! - `indextext <index> <entry> <tex> <plain>` — supplies the TeX and
//!   plain-text forms for `(index, entry)`;
//! - `indexref <index> <entry> <flags>` — a lookup request for
//!   `(index, entry)`, where `<flags>` is the decimal value of a bitmask of
//!   [`IndexRefFlag`]s.
//!
//! Every other line is rejected, and the stream parser reports the index of
//! the first offending line.

use vstd::prelude::*;
use vstd::string::StrSliceExecFns;

use crate::strutil::parse_u8_dec;
use crate::strutil::parse_u8_spec;
use crate::strutil::split_char;
use crate::strutil::split_str;
use crate::strutil::str_eq;

verus! {

/// Flags that an `indexref` line can set: which resolved forms the referring
/// document needs.
pub enum IndexRefFlag {
    /// The reference needs the location (defining entry and fragment).
    NeedsLoc,
    /// The reference needs the text forms (TeX and plain).
    NeedsText,
}

impl IndexRefFlag {
    /// The bit this flag occupies in the `indexref` bitmask.
    pub open spec fn spec_mask(self) -> u8 {
        match self {
            IndexRefFlag::NeedsLoc => 1,
            IndexRefFlag::NeedsText => 2,
        }
    }

    /// Returns the bit this flag occupies in the `indexref` bitmask.
    pub fn mask(&self) -> (r: u8)
        ensures
            r == self.spec_mask(),
    {
        match self {
            IndexRefFlag::NeedsLoc => 1,
            IndexRefFlag::NeedsText => 2,
        }
    }
}

/// The mathematical view of one metadatum line.
pub enum MetadatumView {
    Output(Seq<char>),
    IndexDef { index: Seq<char>, entry: Seq<char>, fragment: Seq<char> },
    IndexText { index: Seq<char>, entry: Seq<char>, tex: Seq<char>, atplain: Seq<char> },
    IndexRef { index: Seq<char>, entry: Seq<char>, flags: u8 },
}

/// One parsed line of the metadatum stream.
pub enum Metadatum {
    /// Names the HTML output file and sets the current entry context.
    Output(String),
    /// Declares `(index, entry)` as defined in the current entry.
    IndexDef { index: String, entry: String, fragment: String },
    /// Supplies the text forms for `(index, entry)`.
    IndexText { index: String, entry: String, tex: String, atplain: String },
    /// Requests resolution of `(index, entry)` with the given flag bitmask.
    IndexRef { index: String, entry: String, flags: u8 },
}

impl View for Metadatum {
    type V = MetadatumView;

    open spec fn view(&self) -> MetadatumView {
        match self {
            Metadatum::Output(o) => MetadatumView::Output(o@),
            Metadatum::IndexDef { index, entry, fragment } => MetadatumView::IndexDef {
                index: index@,
                entry: entry@,
                fragment: fragment@,
            },
            Metadatum::IndexText { index, entry, tex, atplain } => MetadatumView::IndexText {
                index: index@,
                entry: entry@,
                tex: tex@,
                atplain: atplain@,
            },
            Metadatum::IndexRef { index, entry, flags } => MetadatumView::IndexRef {
                index: index@,
                entry: entry@,
                flags: *flags,
            },
        }
    }
}

impl DeepView for Metadatum {
    type V = MetadatumView;

    open spec fn deep_view(&self) -> MetadatumView {
        self.view()
    }
}

/// Whether a character sequence is free of NUL characters.
pub open spec fn no_nul(s: Seq<char>) -> bool {
    forall|k: int| 0 <= k < s.len() ==> s[k] != '\0'
}

/// What one line of the stream means, if anything.
pub open spec fn parse_metadatum(line: Seq<char>) -> Option<MetadatumView> {
    if !no_nul(line) {
        None
    } else {
        let toks = split_char(line, ' ');
        if toks.len() == 2 && toks[0] == "output"@ {
            Some(MetadatumView::Output(toks[1]))
        } else if toks.len() == 4 && toks[0] == "indexdef"@ {
            Some(MetadatumView::IndexDef { index: toks[1], entry: toks[2], fragment: toks[3] })
        } else if toks.len() == 5 && toks[0] == "indextext"@ {
            Some(
                MetadatumView::IndexText {
                    index: toks[1],
                    entry: toks[2],
                    tex: toks[3],
                    atplain: toks[4],
                },
            )
        } else if toks.len() == 4 && toks[0] == "indexref"@ && parse_u8_spec(toks[3]) is Some {
            Some(
                MetadatumView::IndexRef {
                    index: toks[1],
                    entry: toks[2],
                    flags: parse_u8_spec(toks[3]).unwrap(),
                },
            )
        } else {
            None
        }
    }
}

/// Whether `s` contains the character `c`.
fn contains_char(s: &str, c: char) -> (r: bool)
    ensures
        r == exists|k: int| 0 <= k < s@.len() && s@[k] == c,
{
    let n = s.unicode_len();
    let mut i: usize = 0;
    while i < n
        invariant
            i <= n,
            n == s@.len(),
            forall|k: int| 0 <= k < i ==> s@[k] != c,
        decreases n - i,
    {
        if s.get_char(i) == c {
            return true;
        }
        i = i + 1;
    }
    false
}

impl Metadatum {
    /// Parses one line, accepting exactly what `parse_metadatum` accepts.
    pub fn parse(line: &str) -> (r: Option<Metadatum>)
        ensures
            r matches Some(m) ==> parse_metadatum(line@) == Some(m@),
            r is None <==> parse_metadatum(line@) is None,
    {
        if contains_char(line, '\0') {
            return None;
        }
        let toks = split_str(line, ' ');
        if toks.len() == 2 && str_eq(toks[0].as_str(), "output") {
            Some(Metadatum::Output(toks[1].clone()))
        } else if toks.len() == 4 && str_eq(toks[0].as_str(), "indexdef") {
            Some(
                Metadatum::IndexDef {
                    index: toks[1].clone(),
                    entry: toks[2].clone(),
                    fragment: toks[3].clone(),
                },
            )
        } else if toks.len() == 5 && str_eq(toks[0].as_str(), "indextext") {
            Some(
                Metadatum::IndexText {
                    index: toks[1].clone(),
                    entry: toks[2].clone(),
                    tex: toks[3].clone(),
                    atplain: toks[4].clone(),
                },
            )
        } else if toks.len() == 4 && str_eq(toks[0].as_str(), "indexref") {
            match parse_u8_dec(toks[3].as_str()) {
                Some(flags) => Some(
                    Metadatum::IndexRef {
                        index: toks[1].clone(),
                        entry: toks[2].clone(),
                        flags,
                    },
                ),
                None => None,
            }
        } else {
            None
        }
    }
}

/// One raw line with a trailing carriage return removed.
pub open spec fn line_clean(t: Seq<char>) -> Seq<char> {
    if t.len() > 0 && t.last() == '\r' {
        t.drop_last()
    } else {
        t
    }
}

/// The lines of a stream: `\n`-separated, with no empty line after the final
/// `\n`, and with one trailing `\r` per line removed.
pub open spec fn lines_of(s: Seq<char>) -> Seq<Seq<char>> {
    let raw = split_char(s, '\n');
    let trimmed = if raw.last().len() == 0 {
        raw.drop_last()
    } else {
        raw
    };
    trimmed.map_values(|t: Seq<char>| line_clean(t))
}

/// Parsing a sequence of lines: all of them, or the index of the first bad
/// one.
pub open spec fn parse_lines(ls: Seq<Seq<char>>) -> Result<Seq<MetadatumView>, int>
    decreases ls.len(),
{
    if ls.len() == 0 {
        Ok(Seq::<MetadatumView>::empty())
    } else {
        match parse_metadatum(ls[0]) {
            Option::None => Err(0int),
            Option::Some(m) => match parse_lines(ls.drop_first()) {
                Ok(rest) => Ok(seq![m] + rest),
                Err(i) => Err(i + 1),
            },
        }
    }
}

/// The whole metadatum stream, parsed.
pub open spec fn parse_pedia_spec(s: Seq<char>) -> Result<Seq<MetadatumView>, int> {
    parse_lines(lines_of(s))
}

proof fn lemma_parse_lines_ok(ls: Seq<Seq<char>>, ms: Seq<MetadatumView>)
    requires
        ls.len() == ms.len(),
        forall|k: int| 0 <= k < ls.len() ==> parse_metadatum(ls[k]) == Some(ms[k]),
    ensures
        parse_lines(ls) == Ok::<Seq<MetadatumView>, int>(ms),
    decreases ls.len(),
{
    if ls.len() == 0 {
        assert(ms =~= Seq::<MetadatumView>::empty());
    } else {
        lemma_parse_lines_ok(ls.drop_first(), ms.drop_first());
        assert(seq![ms[0]] + ms.drop_first() =~= ms);
    }
}

proof fn lemma_parse_lines_err(ls: Seq<Seq<char>>, i: int)
    requires
        0 <= i < ls.len(),
        forall|k: int| 0 <= k < i ==> parse_metadatum(ls[k]) is Some,
        parse_metadatum(ls[i]) is None,
    ensures
        parse_lines(ls) == Err::<Seq<MetadatumView>, int>(i),
    decreases ls.len(),
{
    if i > 0 {
        lemma_parse_lines_err(ls.drop_first(), i - 1);
    }
}

/// Parses the whole `pedia.txt` stream. On failure, returns the zero-based
/// index of the first line that does not parse.
pub fn parse_pedia(s: &str) -> (r: Result<Vec<Metadatum>, usize>)
    ensures
        r matches Ok(v) ==> parse_pedia_spec(s@) == Ok::<Seq<MetadatumView>, int>(v.deep_view()),
        r matches Err(i) ==> parse_pedia_spec(s@) == Err::<Seq<MetadatumView>, int>(i as int),
{
    let mut raw = split_str(s, '\n');
    let ghost raw_view = raw.deep_view();
    if raw[raw.len() - 1].as_str().unicode_len() == 0 {
        raw.pop();
        proof {
            assert(raw.deep_view() =~= raw_view.drop_last());
        }
    }
    let ghost ls = lines_of(s@);
    let n = raw.len();
    proof {
        assert(ls.len() == n);
    }
    let mut out: Vec<Metadatum> = Vec::new();
    let mut i: usize = 0;
    while i < n
        invariant
            i <= n,
            n == raw.len(),
            ls == lines_of(s@),
            ls.len() == n,
            forall|k: int| 0 <= k < n ==> ls[k] == line_clean(raw.deep_view()[k]),
            out.len() == i,
            forall|k: int| 0 <= k < i ==> (#[trigger] parse_metadatum(ls[k])) is Some,
            forall|k: int|
                0 <= k < i ==> parse_metadatum(ls[k]) == Some(#[trigger] out.deep_view()[k]),
        decreases n - i,
    {
        let ln = raw[i].as_str();
        let l = ln.unicode_len();
        let cleaned: &str = if l > 0 && ln.get_char(l - 1) == '\r' {
            let c = ln.substring_char(0, l - 1);
            proof {
                assert(c@ =~= ln@.drop_last());
            }
            c
        } else {
            ln
        };
        proof {
            assert(cleaned@ == line_clean(raw.deep_view()[i as int]));
        }
        match Metadatum::parse(cleaned) {
            Option::Some(m) => {
                let ghost prev = out.deep_view();
                let ghost mv = m@;
                out.push(m);
                proof {
                    assert(out.deep_view() =~= prev.push(mv));
                }
            },
            Option::None => {
                proof {
                    lemma_parse_lines_err(ls, i as int);
                }
                return Err(i);
            },
        }
        i = i + 1;
    }
    proof {
        lemma_parse_lines_ok(ls, out.deep_view());
    }
    Ok(out)
}

} // verus!
