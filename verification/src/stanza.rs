//! The stanza lines of a secret file header.
//!
//! A header is a first line (the age version line), then lines of the form
//! `-> TAG: ARG: ARG...`, up to a line `---`.  Only stanzas whose tag starts
//! with `mfj-` are kept.  Lines are split as `BufRead::lines` splits them: at
//! `\n`, with one `\r` before the `\n` removed.

use crate::error::MfjError;
use crate::text::{chars_of, str_from_utf8};
use vstd::prelude::*;
use vstd::string::*;
use vstd::utf8::{decode_utf8, valid_utf8};

verus! {

broadcast use vstd::string::group_string_axioms;

/// One header stanza: a tag and its arguments (the body is kept for the age
/// stanza shape and is always empty in secret headers).
#[derive(Debug, PartialEq, Eq)]
pub struct Stanza {
    pub tag: String,
    pub args: Vec<String>,
    pub body: Vec<u8>,
}

/// The mathematical value of a `Stanza`.
pub struct StanzaView {
    pub tag: Seq<char>,
    pub args: Seq<Seq<char>>,
    pub body: Seq<u8>,
}

pub open spec fn strings_view(v: Seq<String>) -> Seq<Seq<char>> {
    v.map_values(|s: String| s@)
}

pub open spec fn stanzas_view(v: Seq<Stanza>) -> Seq<StanzaView> {
    v.map_values(|s: Stanza| s@)
}

impl View for Stanza {
    type V = StanzaView;

    open spec fn view(&self) -> StanzaView {
        StanzaView { tag: self.tag@, args: strings_view(self.args@), body: self.body@ }
    }
}

/// The first index `j >= i` with `b[j] == x`.
pub open spec fn find_byte_from(b: Seq<u8>, x: u8, i: int) -> Option<int>
    decreases b.len() - i,
{
    if i < 0 || i >= b.len() {
        None
    } else if b[i] == x {
        Some(i)
    } else {
        find_byte_from(b, x, i + 1)
    }
}

/// A line without its line feed loses one trailing carriage return.
pub open spec fn strip_cr(l: Seq<u8>) -> Seq<u8> {
    if l.len() > 0 && l.last() == 13u8 {
        l.drop_last()
    } else {
        l
    }
}

/// The lines of `b` from byte `start` on, as `BufRead::lines` yields them.
pub open spec fn lines_from(b: Seq<u8>, start: int) -> Seq<Seq<u8>>
    decreases b.len() - start,
{
    if start < 0 || start >= b.len() {
        seq![]
    } else {
        match find_byte_from(b, 10u8, start) {
            Some(i) => if start <= i < b.len() {
                seq![strip_cr(b.subrange(start, i))] + lines_from(b, i + 1)
            } else {
                seq![]
            },
            None => seq![b.subrange(start, b.len() as int)],
        }
    }
}

/// The first index `j >= i` where `": "` starts in `s`.
pub open spec fn find_colon_space(s: Seq<char>, i: int) -> Option<int>
    decreases s.len() - i,
{
    if i < 0 || i + 1 >= s.len() {
        None
    } else if s[i] == ':' && s[i + 1] == ' ' {
        Some(i)
    } else {
        find_colon_space(s, i + 1)
    }
}

/// The pieces of `s` from `start` on, split at each `": "` (as `str::split`).
pub open spec fn split_from(s: Seq<char>, start: int) -> Seq<Seq<char>>
    decreases s.len() - start,
{
    if start < 0 || start > s.len() {
        seq![]
    } else {
        match find_colon_space(s, start) {
            Some(i) => if start <= i && i + 2 <= s.len() {
                seq![s.subrange(start, i)] + split_from(s, i + 2)
            } else {
                seq![]
            },
            None => seq![s.subrange(start, s.len() as int)],
        }
    }
}

pub open spec fn is_mfj_tag(t: Seq<char>) -> bool {
    t.len() >= 4 && t[0] == 'm' && t[1] == 'f' && t[2] == 'j' && t[3] == '-'
}

pub open spec fn is_stanza_line(cs: Seq<char>) -> bool {
    cs.len() >= 3 && cs[0] == '-' && cs[1] == '>' && cs[2] == ' '
}

pub open spec fn is_end_line(cs: Seq<char>) -> bool {
    cs =~= seq!['-', '-', '-']
}

/// The stanza a header line holds, if it holds one with an `mfj-` tag.
pub open spec fn stanza_of_line(cs: Seq<char>) -> Option<StanzaView> {
    if is_stanza_line(cs) {
        let parts = split_from(cs, 3);
        if parts.len() > 0 && is_mfj_tag(parts[0]) {
            Some(StanzaView { tag: parts[0], args: parts.drop_first(), body: seq![] })
        } else {
            None
        }
    } else {
        None
    }
}

pub open spec fn prepend_opt(o: Option<StanzaView>, v: Seq<StanzaView>) -> Seq<StanzaView> {
    match o {
        Some(s) => seq![s] + v,
        None => v,
    }
}

/// The stanzas of the lines `ls` (the first header line already skipped):
/// each line must be UTF-8 until the line `---`, which ends the header.
pub open spec fn stanzas_of_lines(ls: Seq<Seq<u8>>) -> Result<Seq<StanzaView>, MfjError>
    decreases ls.len(),
{
    if ls.len() == 0 {
        Ok(seq![])
    } else if !valid_utf8(ls[0]) {
        Err(MfjError::HeaderNotUtf8)
    } else if is_end_line(decode_utf8(ls[0])) {
        Ok(seq![])
    } else {
        match stanzas_of_lines(ls.drop_first()) {
            Ok(v) => Ok(prepend_opt(stanza_of_line(decode_utf8(ls[0])), v)),
            Err(e) => Err(e),
        }
    }
}

/// The outcome of reading the stanzas of `header`.
pub open spec fn read_stanzas_spec(header: Seq<u8>) -> Result<Seq<StanzaView>, MfjError> {
    let ls = lines_from(header, 0);
    if ls.len() == 0 {
        Ok(seq![])
    } else {
        stanzas_of_lines(ls.drop_first())
    }
}

proof fn lemma_stanzas_of_lines_error(ls: Seq<Seq<u8>>)
    ensures
        stanzas_of_lines(ls) matches Err(e) ==> e == MfjError::HeaderNotUtf8,
    decreases ls.len(),
{
    if ls.len() > 0 {
        lemma_stanzas_of_lines_error(ls.drop_first());
    }
}

/// Reading stanzas fails only on a line that is not UTF-8.
pub proof fn lemma_read_stanzas_error(header: Seq<u8>)
    ensures
        read_stanzas_spec(header) matches Err(e) ==> e == MfjError::HeaderNotUtf8,
{
    let ls = lines_from(header, 0);
    if ls.len() > 0 {
        lemma_stanzas_of_lines_error(ls.drop_first());
    }
}

fn find_byte(b: &[u8], x: u8, start: usize) -> (r: Option<usize>)
    ensures
        match r {
            Some(i) => find_byte_from(b@, x, start as int) == Some(i as int) && start <= i < b@.len(),
            None => find_byte_from(b@, x, start as int) is None,
        },
    decreases b.len() - start,
{
    if start >= b.len() {
        None
    } else if b[start] == x {
        Some(start)
    } else {
        find_byte(b, x, start + 1)
    }
}

fn find_colon_space_exec(s: &Vec<char>, start: usize) -> (r: Option<usize>)
    ensures
        match r {
            Some(i) => find_colon_space(s@, start as int) == Some(i as int) && start <= i
                && i + 2 <= s@.len(),
            None => find_colon_space(s@, start as int) is None,
        },
    decreases s.len() - start,
{
    if start >= s.len() || start + 1 >= s.len() {
        None
    } else if s[start] == ':' && s[start + 1] == ' ' {
        Some(start)
    } else {
        find_colon_space_exec(s, start + 1)
    }
}

/// The stanza a header line holds (see `stanza_of_line`).
fn parse_stanza_line(line: &str) -> (r: Option<Stanza>)
    ensures
        match r {
            Some(s) => stanza_of_line(line@) == Some(s@),
            None => stanza_of_line(line@) is None,
        },
{
    let cs = chars_of(line);
    if !(cs.len() >= 3 && cs[0] == '-' && cs[1] == '>' && cs[2] == ' ') {
        return None;
    }
    let mut pieces: Vec<String> = Vec::new();
    let mut start: usize = 3;
    loop
        invariant_except_break
            strings_view(pieces@) + split_from(cs@, start as int) == split_from(cs@, 3),
        invariant
            cs@ == line@,
            3 <= start <= cs@.len(),
            is_stanza_line(cs@),
        ensures
            strings_view(pieces@) == split_from(cs@, 3),
            pieces@.len() > 0,
        decreases cs@.len() - start,
    {
        match find_colon_space_exec(&cs, start) {
            Some(i) => {
                let piece = line.substring_char(start, i).to_owned();
                proof {
                    assert(strings_view(pieces@.push(piece)) =~= strings_view(pieces@).push(
                        piece@,
                    ));
                    assert(split_from(cs@, start as int) == seq![cs@.subrange(start as int, i as int)]
                        + split_from(cs@, i + 2));
                }
                pieces.push(piece);
                let n = cs.len();
                assert(i + 2 <= n);
                start = i + 2;
            },
            None => {
                let piece = line.substring_char(start, cs.len()).to_owned();
                proof {
                    assert(strings_view(pieces@.push(piece)) =~= strings_view(pieces@).push(
                        piece@,
                    ));
                    assert(split_from(cs@, start as int) == seq![
                        cs@.subrange(start as int, cs@.len() as int),
                    ]);
                }
                pieces.push(piece);
                assert(strings_view(pieces@) =~= split_from(cs@, 3));
                break ;
            },
        }
    }
    let tag = pieces.remove(0);
    let tc = chars_of(tag.as_str());
    if tc.len() >= 4 && tc[0] == 'm' && tc[1] == 'f' && tc[2] == 'j' && tc[3] == '-' {
        let s = Stanza { tag, args: pieces, body: Vec::new() };
        assert(s@.args =~= split_from(cs@, 3).drop_first());
        Some(s)
    } else {
        None
    }
}

/// Reads the `mfj-` stanzas of a secret file header.
pub fn read_stanzas(header: &[u8]) -> (r: Result<Vec<Stanza>, MfjError>)
    ensures
        match r {
            Ok(v) => read_stanzas_spec(header@) == Ok::<Seq<StanzaView>, MfjError>(stanzas_view(v@)),
            Err(e) => read_stanzas_spec(header@) == Err::<Seq<StanzaView>, MfjError>(e),
        },
{
    let len = header.len();
    let mut out: Vec<Stanza> = Vec::new();
    if len == 0 {
        assert(stanzas_view(out@) =~= seq![]);
        return Ok(out);
    }
    // Skip the first line, whatever it holds.
    let mut pos: usize = match find_byte(header, 10u8, 0) {
        Some(i) => i + 1,
        None => len,
    };
    assert(lines_from(header@, 0).drop_first() =~= lines_from(header@, pos as int));
    while pos < len
        invariant
            len == header@.len(),
            pos <= len,
            read_stanzas_spec(header@) == (match stanzas_of_lines(lines_from(header@, pos as int)) {
                Ok(v) => Ok(stanzas_view(out@) + v),
                Err(e) => Err::<Seq<StanzaView>, MfjError>(e),
            }),
        decreases len - pos,
    {
        let (end, next) = match find_byte(header, 10u8, pos) {
            Some(i) => (i, i + 1),
            None => (len, len),
        };
        let raw = &header[pos..end];
        let line: &[u8] = if next != end && raw.len() > 0 && raw[raw.len() - 1] == 13u8 {
            &raw[0..raw.len() - 1]
        } else {
            raw
        };
        let ghost ls = lines_from(header@, pos as int);
        proof {
            assert(raw@ =~= header@.subrange(pos as int, end as int));
            assert(ls[0] =~= line@);
            assert(ls.drop_first() =~= lines_from(header@, next as int));
        }
        let text = match str_from_utf8(line) {
            Ok(t) => t,
            Err(_) => {
                return Err(MfjError::HeaderNotUtf8);
            },
        };
        let cs = chars_of(text);
        if cs.len() == 3 && cs[0] == '-' && cs[1] == '-' && cs[2] == '-' {
            assert(is_end_line(text@));
            assert(stanzas_view(out@) + seq![] =~= stanzas_view(out@));
            return Ok(out);
        }
        assert(!is_end_line(text@));
        match parse_stanza_line(text) {
            Some(s) => {
                proof {
                    assert(stanzas_view(out@.push(s)) =~= stanzas_view(out@).push(s@));
                    assert forall|v: Seq<StanzaView>|
                        stanzas_view(out@).push(s@) + v =~= stanzas_view(out@) + (seq![s@]
                            + v) by {}
                }
                out.push(s);
            },
            None => {},
        }
        pos = next;
    }
    assert(stanzas_view(out@) + seq![] =~= stanzas_view(out@));
    Ok(out)
}

} // verus!
