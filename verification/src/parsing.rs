//! The natural-language reminder parser: a lowercased Italian token list is
//! turned into a [`Schedule`]. Failure is not an error — unrecognized input
//! yields `None` and the caller answers with a help message.
//!
//! This file holds the token-level pieces: vocabulary lookups and the exact
//! little grammars of numbers, clock times and dates.

use vstd::prelude::*;

verus! {

/// Character-wise string equality, decided without assuming anything about
/// either string.
pub fn tok_eq(a: &str, b: &str) -> (r: bool)
    ensures
        r == (a@ == b@),
{
    let na = a.unicode_len();
    let nb = b.unicode_len();
    if na != nb {
        return false;
    }
    let mut i: usize = 0;
    while i < na
        invariant
            i <= na,
            na == a@.len(),
            na == b@.len(),
            forall|j: int| 0 <= j < i ==> a@[j] == b@[j],
        decreases na - i,
    {
        if a.get_char(i) != b.get_char(i) {
            return false;
        }
        i = i + 1;
    }
    proof {
        assert(a@ =~= b@);
    }
    true
}

pub open spec fn is_digit(c: char) -> bool {
    48 <= c as u32 <= 57
}

pub open spec fn all_digits(s: Seq<char>) -> bool {
    s.len() > 0 && forall|i: int| 0 <= i < s.len() ==> is_digit(#[trigger] s[i])
}

pub open spec fn pow10(n: nat) -> int
    decreases n,
{
    if n == 0 {
        1
    } else {
        10 * pow10((n - 1) as nat)
    }
}

proof fn lemma_digits_val_bound(s: Seq<char>)
    requires
        forall|i: int| 0 <= i < s.len() ==> is_digit(#[trigger] s[i]),
    ensures
        0 <= digits_val(s) < pow10(s.len()),
    decreases s.len(),
{
    if s.len() > 0 {
        assert(forall|i: int|
            0 <= i < s.drop_last().len() ==> is_digit(#[trigger] s.drop_last()[i]));
        lemma_digits_val_bound(s.drop_last());
        assert(is_digit(s.last()));
    }
}

proof fn lemma_pow10_le(a: nat, b: nat)
    requires
        a <= b,
    ensures
        pow10(a) <= pow10(b),
    decreases b,
{
    if a < b {
        lemma_pow10_le(a, (b - 1) as nat);
        assert(pow10((b - 1) as nat) >= 1) by {
            lemma_pow10_pos((b - 1) as nat);
        }
    }
}

proof fn lemma_pow10_pos(n: nat)
    ensures
        pow10(n) >= 1,
    decreases n,
{
    if n > 0 {
        lemma_pow10_pos((n - 1) as nat);
    }
}

/// The number the digit characters spell, most significant first.
pub open spec fn digits_val(s: Seq<char>) -> int
    decreases s.len(),
{
    if s.len() == 0 {
        0
    } else {
        digits_val(s.drop_last()) * 10 + (s.last() as u32 - 48)
    }
}

/// A token read as a plain decimal number: up to nine digits and nothing
/// else. Longer or signed tokens are not numbers to this grammar.
pub fn parse_num(tok: &str) -> (r: Option<u64>)
    ensures
        r is Some <==> (all_digits(tok@) && tok@.len() <= 9),
        r matches Some(v) ==> v == digits_val(tok@) && v < 1000000000,
{
    let n = tok.unicode_len();
    if n == 0 || n > 9 {
        return None;
    }
    let mut v: u64 = 0;
    let mut i: usize = 0;
    while i < n
        invariant
            i <= n,
            n == tok@.len(),
            1 <= n <= 9,
            v == digits_val(tok@.take(i as int)),
            v < 1000000000,
            forall|j: int| 0 <= j < i ==> is_digit(#[trigger] tok@[j]),
        decreases n - i,
    {
        let c = tok.get_char(i);
        let cv = c as u32;
        if cv < 48 || cv > 57 {
            return None;
        }
        proof {
            assert(tok@.take(i + 1).drop_last() =~= tok@.take(i as int));
            assert(tok@.take(i + 1).last() == tok@[i as int]);
            lemma_digits_val_bound(tok@.take(i as int));
            lemma_pow10_le(i as nat, 8);
            reveal_with_fuel(pow10, 9);
        }
        v = v * 10 + (cv - 48) as u64;
        i = i + 1;
    }
    proof {
        assert(tok@.take(n as int) =~= tok@);
    }
    Some(v)
}

/// Weekday vocabulary, counted from Monday = 0; the accented and plain
/// spellings both count.
pub open spec fn spec_weekday_name(s: Seq<char>) -> Option<int> {
    if s == "lunedì"@ || s == "lunedi"@ {
        Some(0int)
    } else if s == "martedì"@ || s == "martedi"@ {
        Some(1int)
    } else if s == "mercoledì"@ || s == "mercoledi"@ {
        Some(2int)
    } else if s == "giovedì"@ || s == "giovedi"@ {
        Some(3int)
    } else if s == "venerdì"@ || s == "venerdi"@ {
        Some(4int)
    } else if s == "sabato"@ {
        Some(5int)
    } else if s == "domenica"@ {
        Some(6int)
    } else {
        None
    }
}

pub fn weekday_name(tok: &str) -> (r: Option<u8>)
    ensures
        match r {
            Some(w) => spec_weekday_name(tok@) == Some(w as int) && w < 7,
            None => spec_weekday_name(tok@) is None,
        },
{
    if tok_eq(tok, "lunedì") || tok_eq(tok, "lunedi") {
        Some(0)
    } else if tok_eq(tok, "martedì") || tok_eq(tok, "martedi") {
        Some(1)
    } else if tok_eq(tok, "mercoledì") || tok_eq(tok, "mercoledi") {
        Some(2)
    } else if tok_eq(tok, "giovedì") || tok_eq(tok, "giovedi") {
        Some(3)
    } else if tok_eq(tok, "venerdì") || tok_eq(tok, "venerdi") {
        Some(4)
    } else if tok_eq(tok, "sabato") {
        Some(5)
    } else if tok_eq(tok, "domenica") {
        Some(6)
    } else {
        None
    }
}

/// Month vocabulary, counted from January = 1.
pub open spec fn spec_month_name(s: Seq<char>) -> Option<int> {
    if s == "gennaio"@ {
        Some(1int)
    } else if s == "febbraio"@ {
        Some(2int)
    } else if s == "marzo"@ {
        Some(3int)
    } else if s == "aprile"@ {
        Some(4int)
    } else if s == "maggio"@ {
        Some(5int)
    } else if s == "giugno"@ {
        Some(6int)
    } else if s == "luglio"@ {
        Some(7int)
    } else if s == "agosto"@ {
        Some(8int)
    } else if s == "settembre"@ {
        Some(9int)
    } else if s == "ottobre"@ {
        Some(10int)
    } else if s == "novembre"@ {
        Some(11int)
    } else if s == "dicembre"@ {
        Some(12int)
    } else {
        None
    }
}

pub fn month_name(tok: &str) -> (r: Option<u8>)
    ensures
        match r {
            Some(m) => spec_month_name(tok@) == Some(m as int) && 1 <= m <= 12,
            None => spec_month_name(tok@) is None,
        },
{
    if tok_eq(tok, "gennaio") {
        Some(1)
    } else if tok_eq(tok, "febbraio") {
        Some(2)
    } else if tok_eq(tok, "marzo") {
        Some(3)
    } else if tok_eq(tok, "aprile") {
        Some(4)
    } else if tok_eq(tok, "maggio") {
        Some(5)
    } else if tok_eq(tok, "giugno") {
        Some(6)
    } else if tok_eq(tok, "luglio") {
        Some(7)
    } else if tok_eq(tok, "agosto") {
        Some(8)
    } else if tok_eq(tok, "settembre") {
        Some(9)
    } else if tok_eq(tok, "ottobre") {
        Some(10)
    } else if tok_eq(tok, "novembre") {
        Some(11)
    } else if tok_eq(tok, "dicembre") {
        Some(12)
    } else {
        None
    }
}

/// Duration vocabulary: the length of one unit, in microseconds, for the
/// singular and plural Italian forms.
pub open spec fn spec_duration_unit(s: Seq<char>) -> Option<int> {
    if s == "secondo"@ || s == "secondi"@ {
        Some(1000000int)
    } else if s == "minuto"@ || s == "minuti"@ {
        Some(60000000int)
    } else if s == "ora"@ || s == "ore"@ {
        Some(3600000000int)
    } else if s == "giorno"@ || s == "giorni"@ {
        Some(86400000000int)
    } else if s == "settimana"@ || s == "settimane"@ {
        Some(604800000000int)
    } else {
        None
    }
}

pub fn duration_unit(tok: &str) -> (r: Option<i64>)
    ensures
        match r {
            Some(d) => spec_duration_unit(tok@) == Some(d as int) && 1000000 <= d
                <= 604800000000,
            None => spec_duration_unit(tok@) is None,
        },
{
    if tok_eq(tok, "secondo") || tok_eq(tok, "secondi") {
        Some(1000000)
    } else if tok_eq(tok, "minuto") || tok_eq(tok, "minuti") {
        Some(60000000)
    } else if tok_eq(tok, "ora") || tok_eq(tok, "ore") {
        Some(3600000000)
    } else if tok_eq(tok, "giorno") || tok_eq(tok, "giorni") {
        Some(86400000000)
    } else if tok_eq(tok, "settimana") || tok_eq(tok, "settimane") {
        Some(604800000000)
    } else {
        None
    }
}

/// Ordinal vocabulary: first through fifth, masculine and feminine, counted
/// from zero.
pub open spec fn spec_position_name(s: Seq<char>) -> Option<int> {
    if s == "primo"@ || s == "prima"@ {
        Some(0int)
    } else if s == "secondo"@ || s == "seconda"@ {
        Some(1int)
    } else if s == "terzo"@ || s == "terza"@ {
        Some(2int)
    } else if s == "quarto"@ || s == "quarta"@ {
        Some(3int)
    } else if s == "quinto"@ || s == "quinta"@ {
        Some(4int)
    } else {
        None
    }
}

pub fn position_name(tok: &str) -> (r: Option<u8>)
    ensures
        match r {
            Some(p) => spec_position_name(tok@) == Some(p as int) && p < 5,
            None => spec_position_name(tok@) is None,
        },
{
    if tok_eq(tok, "primo") || tok_eq(tok, "prima") {
        Some(0)
    } else if tok_eq(tok, "secondo") || tok_eq(tok, "seconda") {
        Some(1)
    } else if tok_eq(tok, "terzo") || tok_eq(tok, "terza") {
        Some(2)
    } else if tok_eq(tok, "quarto") || tok_eq(tok, "quarta") {
        Some(3)
    } else if tok_eq(tok, "quinto") || tok_eq(tok, "quinta") {
        Some(4)
    } else {
        None
    }
}

/// A wall-clock time parsed from one token.
pub struct ParsedTime {
    pub hour: u8,
    pub minute: u8,
    pub second: u8,
}

/// The numeric pieces a split walk has still to produce, read left to right
/// from position `i`: `piece`, `plen` and `bad` carry the piece being read,
/// `acc` the pieces already produced. A piece is kept only when it is one to
/// nine digits and nothing else.
pub open spec fn split_values_from(
    s: Seq<char>,
    i: int,
    piece: int,
    plen: int,
    bad: bool,
    s1: char,
    s2: char,
    s3: char,
    acc: Seq<int>,
) -> Seq<int>
    decreases s.len() - i,
{
    if i < 0 || i >= s.len() {
        if !bad && 1 <= plen <= 9 {
            acc.push(piece)
        } else {
            acc
        }
    } else {
        let c = s[i];
        if c == s1 || c == s2 || c == s3 {
            split_values_from(
                s,
                i + 1,
                0,
                0,
                false,
                s1,
                s2,
                s3,
                if !bad && 1 <= plen <= 9 {
                    acc.push(piece)
                } else {
                    acc
                },
            )
        } else if is_digit(c) && plen < 9 && piece < 100000000 {
            split_values_from(s, i + 1, piece * 10 + (c as u32 - 48), plen + 1, bad, s1, s2, s3, acc)
        } else {
            split_values_from(s, i + 1, piece, plen, true, s1, s2, s3, acc)
        }
    }
}

/// The numeric pieces of a token split at three separator characters.
pub open spec fn split_values(s: Seq<char>, s1: char, s2: char, s3: char) -> Seq<int> {
    split_values_from(s, 0, 0, 0, false, s1, s2, s3, Seq::empty())
}

/// Splits a token at three possible separator characters; the pieces are
/// kept only when every piece is a plain number.
fn split_numbers(tok: &str, s1: char, s2: char, s3: char) -> (r: Vec<u64>)
    ensures
        forall|j: int| 0 <= j < r@.len() ==> #[trigger] r@[j] < 1000000000,
        r@.len() == split_values(tok@, s1, s2, s3).len(),
        forall|j: int|
            0 <= j < r@.len() ==> #[trigger] r@[j] as int == split_values(tok@, s1, s2, s3)[j],
{
    let n = tok.unicode_len();
    let mut out: Vec<u64> = Vec::new();
    let ghost mut vals: Seq<int> = Seq::empty();
    let mut piece: u64 = 0;
    let mut piece_len: usize = 0;
    let mut bad = false;
    let mut i: usize = 0;
    while i < n
        invariant
            i <= n,
            n == tok@.len(),
            piece < 1000000000,
            piece_len <= 9 || bad,
            vals.len() == out@.len(),
            forall|j: int| 0 <= j < out@.len() ==> #[trigger] out@[j] < 1000000000,
            forall|j: int| 0 <= j < out@.len() ==> #[trigger] out@[j] as int == vals[j],
            split_values(tok@, s1, s2, s3) == split_values_from(
                tok@,
                i as int,
                piece as int,
                piece_len as int,
                bad,
                s1,
                s2,
                s3,
                vals,
            ),
        decreases n - i,
    {
        let c = tok.get_char(i);
        if c == s1 || c == s2 || c == s3 {
            if !bad && piece_len >= 1 && piece_len <= 9 {
                out.push(piece);
                proof {
                    vals = vals.push(piece as int);
                }
            }
            piece = 0;
            piece_len = 0;
            bad = false;
        } else {
            let cv = c as u32;
            if cv < 48 || cv > 57 {
                bad = true;
            } else if piece_len < 9 && piece < 100000000 {
                piece = piece * 10 + (cv - 48) as u64;
                piece_len = piece_len + 1;
            } else {
                bad = true;
            }
        }
        i = i + 1;
    }
    if !bad && piece_len >= 1 && piece_len <= 9 {
        out.push(piece);
        proof {
            vals = vals.push(piece as int);
        }
    }
    out
}

/// Reads `HH:MM` or `HH:MM:SS` from one token: plain numeric pieces between
/// colons, each in clock range; anything else is no time.
pub fn parse_time_token(tok: &str) -> (r: Option<ParsedTime>)
    ensures
        r matches Some(t) ==> t.hour < 24 && t.minute < 60 && t.second < 60,
        ({
            let ps = split_values(tok@, ':', ':', ':');
            if ps.len() == 2 || ps.len() == 3 {
                let sec: int = if ps.len() == 3 {
                    ps[2]
                } else {
                    0
                };
                if 0 <= ps[0] < 24 && 0 <= ps[1] < 60 && 0 <= sec < 60 {
                    r matches Some(t) && t.hour == ps[0] && t.minute == ps[1] && t.second == sec
                } else {
                    r is None
                }
            } else {
                r is None
            }
        }),
{
    let pieces = split_numbers(tok, ':', ':', ':');
    if pieces.len() != 2 && pieces.len() != 3 {
        return None;
    }
    let h = pieces[0];
    let m = pieces[1];
    let s: u64 = if pieces.len() == 3 {
        pieces[2]
    } else {
        0
    };
    if h < 24 && m < 60 && s < 60 {
        Some(ParsedTime { hour: h as u8, minute: m as u8, second: s as u8 })
    } else {
        None
    }
}

/// A calendar date read from one `D.M.Y` / `D-M-Y` / `D/M/Y` token; the date
/// must exist on the proleptic Gregorian calendar between 1970 and 9999.
pub fn parse_date_token(tok: &str) -> (r: Option<(i64, i64, i64)>)
    ensures
        r matches Some(d) ==> crate::civil::valid_date(d.0 as int, d.1 as int, d.2 as int) && d.0
            <= crate::civil::MAX_YEAR,
        ({
            let ps = split_values(tok@, '.', '-', '/');
            if ps.len() == 3 && 1970 <= ps[2] <= 9999 && 1 <= ps[1] <= 12 && 1 <= ps[0]
                <= crate::civil::days_in_month(ps[2], ps[1]) {
                r matches Some(d) && d.0 == ps[2] && d.1 == ps[1] && d.2 == ps[0]
            } else {
                r is None
            }
        }),
{
    let pieces = split_numbers(tok, '.', '-', '/');
    if pieces.len() != 3 {
        return None;
    }
    let d = pieces[0];
    let m = pieces[1];
    let y = pieces[2];
    if y < 1970 || y > 9999 || m < 1 || m > 12 || d < 1 {
        return None;
    }
    let dim = crate::civil::month_days(y as i64, m as i64);
    if (d as i64) > dim {
        return None;
    }
    Some((y as i64, m as i64, d as i64))
}

/// A day-of-month/month pair read from one `D/M`-style token, as the
/// recurrent grammar uses it: the first two numeric pieces, in range.
pub fn parse_day_month_token(tok: &str) -> (r: Option<(u8, u8)>)
    ensures
        r matches Some(p) ==> 1 <= p.0 <= 31 && 1 <= p.1 <= 12,
        ({
            let ps = split_values(tok@, '.', '-', '/');
            if ps.len() >= 2 && 1 <= ps[0] <= 31 && 1 <= ps[1] <= 12 {
                r matches Some(p) && p.0 == ps[0] && p.1 == ps[1]
            } else {
                r is None
            }
        }),
{
    let pieces = split_numbers(tok, '.', '-', '/');
    if pieces.len() < 2 {
        return None;
    }
    let d = pieces[0];
    let m = pieces[1];
    if d < 1 || d > 31 || m < 1 || m > 12 {
        return None;
    }
    Some((d as u8, m as u8))
}

/// Whether a character is one of the date separators.
pub open spec fn is_date_separator(c: char) -> bool {
    c == '.' || c == '-' || c == '/'
}

/// Whether a token holds one of the date separators.
pub fn has_date_separator(tok: &str) -> (r: bool)
    ensures
        r == exists|j: int| 0 <= j < tok@.len() && is_date_separator(#[trigger] tok@[j]),
{
    let n = tok.unicode_len();
    let mut i: usize = 0;
    while i < n
        invariant
            i <= n,
            n == tok@.len(),
            forall|j: int| 0 <= j < i ==> !is_date_separator(#[trigger] tok@[j]),
        decreases n - i,
    {
        let c = tok.get_char(i);
        if c == '.' || c == '-' || c == '/' {
            return true;
        }
        i = i + 1;
    }
    false
}

} // verus!

verus! {

use crate::civil;
use crate::grid::ScheduleGridBuilder;
use crate::grid::TimeOfDay;
use crate::localtime;
use crate::schedule::Schedule;
use crate::tz::Zone;

/// Keywords that open the recurrent branch of the grammar.
pub open spec fn spec_recurrent_leading(s: Seq<char>) -> bool {
    s == "ogni"@ || s == "fino"@ || s == "dal"@ || s == "dall"@ || s == "da"@
}

/// Tokens that open the single-firing branch of the grammar.
pub open spec fn spec_once_leading(s: Seq<char>) -> bool {
    ||| spec_weekday_name(s) is Some
    ||| s == "alle"@
    ||| s == "a"@
    ||| s == "il"@
    ||| s == "lo"@
    ||| s == "l"@
    ||| s == "nel"@
    ||| s == "ad"@
    ||| s == "tra"@
}

/// Reads a year token: any plain number.
fn try_parse_year(toks: &Vec<&str>, i: &mut usize) -> (r: Option<i64>)
    requires
        *old(i) <= toks@.len(),
    ensures
        *old(i) <= *final(i) <= toks@.len(),
        r matches Some(y) ==> 0 <= y < 1000000000 && y == digits_val(toks@[*old(i) as int]@),
        r is Some <==> (*old(i) < toks@.len() && all_digits(toks@[*old(i) as int]@) && toks@[*old(
            i,
        ) as int]@.len() <= 9),
        r is Some ==> *final(i) == *old(i) + 1,
        r is None ==> *final(i) == *old(i),
{
    if *i < toks.len() {
        match parse_num(toks[*i]) {
            Some(v) => {
                *i = *i + 1;
                Some(v as i64)
            }
            None => None,
        }
    } else {
        None
    }
}

/// Reads a day-of-month token: a plain number under 32.
fn try_parse_day(toks: &Vec<&str>, i: &mut usize) -> (r: Option<i64>)
    requires
        *old(i) <= toks@.len(),
    ensures
        *old(i) <= *final(i) <= toks@.len(),
        r matches Some(d) ==> 0 <= d < 32 && d == digits_val(toks@[*old(i) as int]@),
        r is Some <==> (*old(i) < toks@.len() && all_digits(toks@[*old(i) as int]@) && toks@[*old(
            i,
        ) as int]@.len() <= 9 && digits_val(toks@[*old(i) as int]@) < 32),
        r is Some ==> *final(i) == *old(i) + 1,
        r is None ==> *final(i) == *old(i),
{
    if *i < toks.len() {
        match parse_num(toks[*i]) {
            Some(v) => {
                if v < 32 {
                    *i = *i + 1;
                    Some(v as i64)
                } else {
                    None
                }
            }
            None => None,
        }
    } else {
        None
    }
}

fn try_parse_month(toks: &Vec<&str>, i: &mut usize) -> (r: Option<i64>)
    requires
        *old(i) <= toks@.len(),
    ensures
        *old(i) <= *final(i) <= toks@.len(),
        r matches Some(m) ==> 1 <= m <= 12 && spec_month_name(toks@[*old(i) as int]@) == Some(
            m as int,
        ),
        r is Some <==> (*old(i) < toks@.len() && spec_month_name(toks@[*old(i) as int]@) is Some),
        r is Some ==> *final(i) == *old(i) + 1,
        r is None ==> *final(i) == *old(i),
{
    if *i < toks.len() {
        match month_name(toks[*i]) {
            Some(m) => {
                *i = *i + 1;
                Some(m as i64)
            }
            None => None,
        }
    } else {
        None
    }
}

fn try_parse_weekday(toks: &Vec<&str>, i: &mut usize) -> (r: Option<i64>)
    requires
        *old(i) <= toks@.len(),
    ensures
        *old(i) <= *final(i) <= toks@.len(),
        r matches Some(w) ==> 0 <= w < 7 && spec_weekday_name(toks@[*old(i) as int]@) == Some(
            w as int,
        ),
        r is Some <==> (*old(i) < toks@.len() && spec_weekday_name(toks@[*old(i) as int]@)
            is Some),
        r is Some ==> *final(i) == *old(i) + 1,
        r is None ==> *final(i) == *old(i),
{
    if *i < toks.len() {
        match weekday_name(toks[*i]) {
            Some(w) => {
                *i = *i + 1;
                Some(w as i64)
            }
            None => None,
        }
    } else {
        None
    }
}

fn try_parse_position(toks: &Vec<&str>, i: &mut usize) -> (r: Option<usize>)
    requires
        *old(i) <= toks@.len(),
    ensures
        *old(i) <= *final(i) <= toks@.len(),
        r matches Some(p) ==> p < 5 && spec_position_name(toks@[*old(i) as int]@) == Some(
            p as int,
        ),
        r is Some <==> (*old(i) < toks@.len() && spec_position_name(toks@[*old(i) as int]@)
            is Some),
        r is Some ==> *final(i) == *old(i) + 1,
        r is None ==> *final(i) == *old(i),
{
    if *i < toks.len() {
        match position_name(toks[*i]) {
            Some(p) => {
                *i = *i + 1;
                Some(p as usize)
            }
            None => None,
        }
    } else {
        None
    }
}

/// What reading a clock time from position `i` yields: the time fields when
/// one is read, and the position after whatever was consumed. A bare hour
/// with an out-of-range minute falls back to the whole hour; an out-of-range
/// hour consumes its tokens and yields nothing.
pub open spec fn parse_time_spec(toks: Seq<&str>, i: int) -> (Option<(int, int, int)>, int) {
    if i < 0 || i >= toks.len() {
        (None, i)
    } else {
        let ps = split_values(toks[i]@, ':', ':', ':');
        let colon_sec: int = if ps.len() == 3 {
            ps[2]
        } else {
            0
        };
        if (ps.len() == 2 || ps.len() == 3) && 0 <= ps[0] < 24 && 0 <= ps[1] < 60 && 0 <= colon_sec
            < 60 {
            (Some((ps[0], ps[1], colon_sec)), i + 1)
        } else if !(all_digits(toks[i]@) && toks[i]@.len() <= 9) {
            (None, i)
        } else {
            let h = digits_val(toks[i]@);
            let has_e = i + 1 < toks.len() && toks[i + 1]@ == "e"@;
            let has_m = has_e && i + 2 < toks.len() && all_digits(toks[i + 2]@) && toks[i
                + 2]@.len() <= 9;
            let m = if has_m {
                digits_val(toks[i + 2]@)
            } else {
                0
            };
            let ni = if has_m {
                i + 3
            } else if has_e {
                i + 2
            } else {
                i + 1
            };
            if 0 <= h < 24 && has_m && 0 <= m < 60 {
                (Some((h, m, 0)), ni)
            } else if 0 <= h < 24 {
                (Some((h, 0, 0)), ni)
            } else {
                (None, ni)
            }
        }
    }
}

/// Reads a clock time: a `HH:MM[:SS]` token, or `HH` optionally followed by
/// `e MM`. An out-of-range minute falls back to the whole hour; an
/// out-of-range hour is no time at all.
fn try_parse_time(toks: &Vec<&str>, i: &mut usize) -> (r: Option<ParsedTime>)
    requires
        *old(i) <= toks@.len(),
    ensures
        *old(i) <= *final(i) <= toks@.len(),
        r matches Some(t) ==> t.hour < 24 && t.minute < 60 && t.second < 60,
        r is Some ==> *final(i) > *old(i),
        ({
            let pr = parse_time_spec(toks@, *old(i) as int);
            *final(i) == pr.1 && match pr.0 {
                Some(hms) => r matches Some(t) && t.hour == hms.0 && t.minute == hms.1 && t.second
                    == hms.2,
                None => r is None,
            }
        }),
{
    if *i >= toks.len() {
        return None;
    }
    match parse_time_token(toks[*i]) {
        Some(t) => {
            *i = *i + 1;
            Some(t)
        }
        None => {
            let h = match parse_num(toks[*i]) {
                Some(v) => v,
                None => {
                    return None;
                }
            };
            *i = *i + 1;
            let mut minute: u64 = 0;
            let mut have_minute = false;
            if *i < toks.len() && tok_eq(toks[*i], "e") {
                *i = *i + 1;
                if *i < toks.len() {
                    match parse_num(toks[*i]) {
                        Some(m) => {
                            *i = *i + 1;
                            minute = m;
                            have_minute = true;
                        }
                        None => {}
                    }
                }
            }
            if h < 24 && have_minute && minute < 60 {
                Some(ParsedTime { hour: h as u8, minute: minute as u8, second: 0 })
            } else if h < 24 {
                Some(ParsedTime { hour: h as u8, minute: 0, second: 0 })
            } else {
                None
            }
        }
    }
}

/// Where `next_month` lands: one month of days ahead, when still in range.
pub open spec fn next_month_of(tz: Seq<char>, t: int) -> int {
    let ymd = civil::date_of_day(localtime::reading_of(tz, t) / 86400);
    let moved = t + civil::days_in_month(ymd.0, ymd.1) * 86400000000;
    if civil::valid_instant(moved) {
        moved
    } else {
        t
    }
}

/// Where `next_year` lands: one year of days ahead, when still in range.
pub open spec fn next_year_of(tz: Seq<char>, t: int) -> int {
    let ymd = civil::date_of_day(localtime::reading_of(tz, t) / 86400);
    let moved = t + civil::days_in_year(ymd.0) * 86400000000;
    if civil::valid_instant(moved) {
        moved
    } else {
        t
    }
}

/// The day-ahead fallback of a clock time already past.
pub open spec fn time_rolled(tz: Seq<char>, t: int, tod: int) -> int {
    let tomorrow = if civil::valid_instant(t + 86400000000) {
        t + 86400000000
    } else {
        t
    };
    match localtime::tod_replaced(tz, tomorrow, tod) {
        Some(d) => d,
        None => t,
    }
}

/// The month-ahead fallback of a day of the month already past.
pub open spec fn day_rolled(tz: Seq<char>, t: int, d: int) -> int {
    match localtime::day_replaced(tz, next_month_of(tz, t), d) {
        Some(x) => x,
        None => t,
    }
}

/// The year-ahead fallback of a month already past.
pub open spec fn month_rolled(tz: Seq<char>, t: int, m: int) -> int {
    match localtime::month_replaced(tz, next_year_of(tz, t), m) {
        Some(x) => x,
        None => t,
    }
}

/// Where `try_set_time` lands: the clock applied today, or rolled a day
/// ahead when the reading is before `lower` or cannot be shown.
pub open spec fn set_time_result(tz: Seq<char>, h: int, m: int, sec: int, cand: int, lower: int) -> int {
    let tod = h * 3600 + m * 60 + sec;
    match localtime::tod_replaced(tz, cand, tod) {
        Some(d) => if d >= lower {
            d
        } else {
            time_rolled(tz, cand, tod)
        },
        None => time_rolled(tz, cand, tod),
    }
}

/// Where `try_set_day` lands: the day applied this month, or rolled a month
/// ahead when the reading is before `lower` or cannot be shown.
pub open spec fn set_day_result(tz: Seq<char>, d: int, cand: int, lower: int) -> int {
    match localtime::day_replaced(tz, cand, d) {
        Some(x) => if x >= lower {
            x
        } else {
            day_rolled(tz, cand, d)
        },
        None => day_rolled(tz, cand, d),
    }
}

/// Where `try_set_month` lands: the month applied this year, or rolled a
/// year ahead when the reading is before `lower` or cannot be shown.
pub open spec fn set_month_result(tz: Seq<char>, m: int, cand: int, lower: int) -> int {
    match localtime::month_replaced(tz, cand, m) {
        Some(x) => if x >= lower {
            x
        } else {
            month_rolled(tz, cand, m)
        },
        None => month_rolled(tz, cand, m),
    }
}

/// Where `set_year_op` lands: the year applied, or the instant kept when the
/// date does not exist there.
pub open spec fn set_year_result(tz: Seq<char>, y: int, cand: int) -> int {
    match localtime::year_replaced(tz, cand, y) {
        Some(u) => u,
        None => cand,
    }
}

/// The first day of the next month, at the same clock time.
fn next_month(z: &Zone, cand: i64) -> (r: i64)
    requires
        civil::valid_instant(cand as int),
    ensures
        civil::valid_instant(r as int),
        r as int == next_month_of(z@, cand as int),
{
    let v = localtime::local_view(z, cand);
    proof {
        localtime::lemma_reading_day(z@, cand as int, &v);
    }
    let dim = civil::month_days(v.year, v.month);
    match localtime::add_micros(cand, dim * 86400000000) {
        Some(t) => t,
        None => cand,
    }
}

/// The same date one year of days later.
fn next_year(z: &Zone, cand: i64) -> (r: i64)
    requires
        civil::valid_instant(cand as int),
    ensures
        civil::valid_instant(r as int),
        r as int == next_year_of(z@, cand as int),
{
    let v = localtime::local_view(z, cand);
    proof {
        localtime::lemma_reading_day(z@, cand as int, &v);
    }
    let dy = civil::year_days(v.year);
    match localtime::add_micros(cand, dy * 86400000000) {
        Some(t) => t,
        None => cand,
    }
}

/// Sets the year, keeping the instant cand the date does not exist there.
fn set_year_op(z: &Zone, y: i64, cand: i64) -> (r: i64)
    requires
        civil::valid_instant(cand as int),
    ensures
        civil::valid_instant(r as int),
        r as int == set_year_result(z@, y as int, cand as int),
{
    match localtime::with_year(z, cand, y) {
        Some(t) => t,
        None => cand,
    }
}

/// Applies a clock time; a reading before `lower` moves one day ahead.
fn try_set_time(z: &Zone, t: &ParsedTime, cand: i64, lower: i64) -> (r: i64)
    requires
        civil::valid_instant(cand as int),
        t.hour < 24,
        t.minute < 60,
        t.second < 60,
    ensures
        civil::valid_instant(r as int),
        r as int == set_time_result(
            z@,
            t.hour as int,
            t.minute as int,
            t.second as int,
            cand as int,
            lower as int,
        ),
{
    match localtime::with_time(z, cand, t.hour as i64, t.minute as i64, t.second as i64) {
        Some(d) => {
            if d >= lower {
                return d;
            }
        }
        None => {}
    }
    let tomorrow = match localtime::add_micros(cand, 86400000000) {
        Some(x) => x,
        None => cand,
    };
    match localtime::with_time(z, tomorrow, t.hour as i64, t.minute as i64, t.second as i64) {
        Some(d) => d,
        None => cand,
    }
}

/// Applies a day of the month; a reading before `lower` moves one month on.
fn try_set_day(z: &Zone, d: i64, cand: i64, lower: i64) -> (r: i64)
    requires
        civil::valid_instant(cand as int),
    ensures
        civil::valid_instant(r as int),
        r as int == set_day_result(z@, d as int, cand as int, lower as int),
{
    match localtime::with_day(z, cand, d) {
        Some(x) => {
            if x >= lower {
                return x;
            }
        }
        None => {}
    }
    match localtime::with_day(z, next_month(z, cand), d) {
        Some(x) => x,
        None => cand,
    }
}

/// Applies a month; a reading before `lower` moves one year on.
fn try_set_month(z: &Zone, m: i64, cand: i64, lower: i64) -> (r: i64)
    requires
        civil::valid_instant(cand as int),
    ensures
        civil::valid_instant(r as int),
        r as int == set_month_result(z@, m as int, cand as int, lower as int),
{
    match localtime::with_month(z, cand, m) {
        Some(x) => {
            if x >= lower {
                return x;
            }
        }
        None => {}
    }
    match localtime::with_month(z, next_year(z, cand), m) {
        Some(x) => x,
        None => cand,
    }
}

/// The next day falling on weekday `w` (Monday = 0), today included.
fn next_weekday_op(z: &Zone, w: i64, cand: i64) -> (r: i64)
    requires
        civil::valid_instant(cand as int),
        0 <= w < 7,
    ensures
        civil::valid_instant(r as int),
        r as int == ({
            let skip = ((w - (localtime::reading_of(z@, cand as int) / 86400 + 3) % 7) + 7) % 7;
            let moved = cand + skip * 86400000000;
            if civil::valid_instant(moved) {
                moved
            } else {
                cand as int
            }
        }),
{
    let v = localtime::local_view(z, cand);
    proof {
        localtime::lemma_reading_day(z@, cand as int, &v);
    }
    proof {
        civil::lemma_days_before_year_upper(civil::MAX_YEAR as int + 1);
        civil::lemma_day_number_in_year(v.year as int, v.month as int, v.day as int);
        civil::lemma_days_before_year_mono(v.year as int + 1, civil::MAX_YEAR as int + 1);
        civil::lemma_days_before_year_mono(1970, v.year as int);
    }
    let zd = civil::days_from_civil(v.year, v.month, v.day);
    let cur = civil::weekday_from_days(zd);
    let skip = ((w - cur) + 7) % 7;
    match localtime::add_micros(cand, skip * 86400000000) {
        Some(t) => t,
        None => cand,
    }
}

/// Where `at_time` lands and what it consumes.
pub open spec fn at_time_spec(tz: Seq<char>, lower: int, cand: int, toks: Seq<&str>, i: int) -> (
    int,
    int,
) {
    let pr = parse_time_spec(toks, i);
    (
        match pr.0 {
            Some(hms) => set_time_result(tz, hms.0, hms.1, hms.2, cand, lower),
            None => cand,
        },
        pr.1,
    )
}

/// Where `a <month> [year]` lands and what it consumes.
pub open spec fn at_month_spec(tz: Seq<char>, cand: int, toks: Seq<&str>, i: int) -> (int, int) {
    if 0 <= i < toks.len() {
        match spec_month_name(toks[i]@) {
            Some(m) => match localtime::month_replaced(tz, cand, m) {
                None => (cand, i + 1),
                Some(d) => if i + 1 < toks.len() && all_digits(toks[i + 1]@) && toks[i
                    + 1]@.len() <= 9 {
                    (
                        match localtime::year_replaced(tz, d, digits_val(toks[i + 1]@)) {
                            Some(d2) => d2,
                            None => d,
                        },
                        i + 2,
                    )
                } else {
                    (d, i + 1)
                },
            },
            None => (cand, i),
        }
    } else {
        (cand, i)
    }
}

/// Where a consumed weekday name lands and what it consumes.
pub open spec fn configure_weekday_spec(tz: Seq<char>, cand: int, toks: Seq<&str>, i: int) -> (
    int,
    int,
) {
    if 0 <= i < toks.len() {
        match spec_weekday_name(toks[i]@) {
            Some(w) => (
                {
                    let skip = ((w - (localtime::reading_of(tz, cand) / 86400 + 3) % 7) + 7) % 7;
                    let moved = cand + skip * 86400000000;
                    if civil::valid_instant(moved) {
                        moved
                    } else {
                        cand
                    }
                },
                i + 1,
            ),
            None => (cand, i),
        }
    } else {
        (cand, i)
    }
}

/// Where `nel <year>` lands and what it consumes.
pub open spec fn at_beginning_of_year_spec(tz: Seq<char>, cand: int, toks: Seq<&str>, i: int) -> (
    int,
    int,
) {
    if 0 <= i < toks.len() && all_digits(toks[i]@) && toks[i]@.len() <= 9 {
        let y = digits_val(toks[i]@);
        (
            match localtime::month_replaced(tz, cand, 1) {
                Some(t1) => match localtime::day_replaced(tz, t1, 1) {
                    Some(t2) => set_year_result(tz, y, t2),
                    None => cand,
                },
                None => cand,
            },
            i + 1,
        )
    } else {
        (cand, i)
    }
}

/// Where `truncated_by_day` lands: midnight of the reading's day.
pub open spec fn trunc_day_result(tz: Seq<char>, t: int) -> int {
    match localtime::replaced(tz, (localtime::reading_of(tz, t) / 86400) * 86400, 0) {
        Some(x) => x,
        None => t,
    }
}

/// Whether the token at `i` reads as a full `D/M/Y`-style calendar date.
pub open spec fn date_token_at(toks: Seq<&str>, i: int) -> bool {
    0 <= i < toks.len() && {
        let ps = split_values(toks[i]@, '.', '-', '/');
        ps.len() == 3 && 1970 <= ps[2] <= 9999 && 1 <= ps[1] <= 12 && 1 <= ps[0]
            <= civil::days_in_month(ps[2], ps[1])
    }
}

/// The day/month/year tail of `il <date>`, after any full date token.
pub open spec fn at_date_tail_spec(
    tz: Seq<char>,
    lower: int,
    cand: int,
    toks: Seq<&str>,
    j: int,
) -> (int, int) {
    if !(0 <= j < toks.len() && all_digits(toks[j]@) && toks[j]@.len() <= 9 && digits_val(
        toks[j]@,
    ) < 32) {
        (cand, j)
    } else {
        let d = digits_val(toks[j]@);
        let j1 = j + 1;
        if !(j1 < toks.len() && spec_month_name(toks[j1]@) is Some) {
            (set_day_result(tz, d, cand, lower), j1)
        } else {
            match spec_month_name(toks[j1]@) {
                Some(m) => {
                    let j2 = j1 + 1;
                    if j2 < toks.len() && all_digits(toks[j2]@) && toks[j2]@.len() <= 9 {
                        let y = digits_val(toks[j2]@);
                        let t = set_year_result(tz, y, cand);
                        (
                            match localtime::month_replaced(tz, t, 1) {
                                Some(t1) => {
                                    let t2 = set_month_result(tz, m, t1, lower);
                                    match localtime::day_replaced(tz, t2, 1) {
                                        Some(t3) => set_day_result(tz, d, t3, lower),
                                        None => cand,
                                    }
                                },
                                None => cand,
                            },
                            j2 + 1,
                        )
                    } else {
                        let t = set_month_result(tz, m, cand, lower);
                        (
                            match localtime::day_replaced(tz, t, 1) {
                                Some(t1) => set_day_result(tz, d, t1, lower),
                                None => cand,
                            },
                            j2,
                        )
                    }
                },
                None => (cand, j1),
            }
        }
    }
}

/// Where `il <day[/month[/year]] | day [month [year]]>` lands and what it
/// consumes: a full date token applied outright when its reading exists,
/// else the day/month/year walk with its roll-forwards.
pub open spec fn at_date_spec(tz: Seq<char>, lower: int, cand: int, toks: Seq<&str>, i: int) -> (
    int,
    int,
) {
    if date_token_at(toks, i) {
        let ps = split_values(toks[i]@, '.', '-', '/');
        match localtime::year_replaced(tz, cand, ps[2]) {
            Some(t1) => match localtime::month_replaced(tz, t1, ps[1]) {
                Some(t2) => match localtime::day_replaced(tz, t2, ps[0]) {
                    Some(t3) => (t3, i + 1),
                    None => at_date_tail_spec(tz, lower, cand, toks, i + 1),
                },
                None => at_date_tail_spec(tz, lower, cand, toks, i + 1),
            },
            None => at_date_tail_spec(tz, lower, cand, toks, i + 1),
        }
    } else {
        at_date_tail_spec(tz, lower, cand, toks, i)
    }
}

/// Where `al <year-or-date>` lands and what it consumes.
pub open spec fn at_date_or_year_spec(
    tz: Seq<char>,
    lower: int,
    cand: int,
    toks: Seq<&str>,
    i: int,
) -> (int, int) {
    if 0 <= i < toks.len() && all_digits(toks[i]@) && toks[i]@.len() <= 9 && digits_val(toks[i]@)
        > 1970 {
        (trunc_day_result(tz, set_year_result(tz, digits_val(toks[i]@) + 1, cand)), i + 1)
    } else {
        at_date_spec(tz, lower, cand, toks, i)
    }
}

/// Where `a <month-or-weekday>` lands and what it consumes.
pub open spec fn at_month_or_weekday_spec(tz: Seq<char>, cand: int, toks: Seq<&str>, i: int) -> (
    int,
    int,
) {
    if 0 <= i < toks.len() && spec_weekday_name(toks[i]@) is Some {
        configure_weekday_spec(tz, cand, toks, i)
    } else {
        at_month_spec(tz, cand, toks, i)
    }
}

/// Where `tra N <unit> [e N <unit>]*` lands and what it consumes: the
/// duration pairs summed onto the candidate, one by one.
pub open spec fn advance_time_spec(cand: int, toks: Seq<&str>, i: int) -> (int, int)
    decreases toks.len() - i,
{
    if i < 0 || i >= toks.len() {
        (cand, i)
    } else if !(all_digits(toks[i]@) && toks[i]@.len() <= 9) {
        (cand, i)
    } else if i + 1 >= toks.len() {
        (cand, i + 1)
    } else {
        match spec_duration_unit(toks[i + 1]@) {
            None => (cand, i + 1),
            Some(unit) => {
                let q = digits_val(toks[i]@);
                let cand2 = if q == 0 || unit <= 9223372036854775807int / q {
                    let moved = cand + unit * q;
                    if civil::valid_instant(moved) {
                        moved
                    } else {
                        cand
                    }
                } else {
                    cand
                };
                let i2 = i + 2;
                let i3 = if i2 < toks.len() && toks[i2]@ == "e"@ {
                    i2 + 1
                } else {
                    i2
                };
                advance_time_spec(cand2, toks, i3)
            },
        }
    }
}

/// `tra N <unit> [e N <unit>]*`: adds the summed duration.
fn advance_time(z: &Zone, cand0: i64, toks: &Vec<&str>, i: &mut usize) -> (r: i64)
    requires
        civil::valid_instant(cand0 as int),
        *old(i) <= toks@.len(),
    ensures
        civil::valid_instant(r as int),
        *old(i) <= *final(i) <= toks@.len(),
        ({
            let pr = advance_time_spec(cand0 as int, toks@, *old(i) as int);
            r as int == pr.0 && *final(i) as int == pr.1
        }),
{
    let mut cand = cand0;
    loop
        invariant_except_break
            advance_time_spec(cand as int, toks@, *i as int) == advance_time_spec(
                cand0 as int,
                toks@,
                *old(i) as int,
            ),
        invariant
            civil::valid_instant(cand as int),
            *old(i) <= (*i) <= toks@.len(),
        ensures
            civil::valid_instant(cand as int),
            *old(i) <= (*i) <= toks@.len(),
            (cand as int, *i as int) == advance_time_spec(cand0 as int, toks@, *old(i) as int),
        decreases (toks@.len() - *i),
    {
        if *i >= toks.len() {
            break;
        }
        let q = match parse_num(toks[*i]) {
            Some(v) => v,
            None => {
                break;
            }
        };
        if *i + 1 >= toks.len() {
            *i = *i + 1;
            break;
        }
        let unit = match duration_unit(toks[*i + 1]) {
            Some(u) => u,
            None => {
                *i = *i + 1;
                break;
            }
        };
        *i = *i + 2;
        let q64 = q as i64;
        if q64 == 0 || unit <= 9223372036854775807i64 / q64 {
            proof {
                if q64 > 0 {
                    assert(unit * q64 <= (9223372036854775807int / q64 as int) * q64 as int)
                        by (nonlinear_arith)
                        requires unit as int <= 9223372036854775807int / q64 as int, q64 > 0;
                    assert((9223372036854775807int / q64 as int) * q64 as int
                        <= 9223372036854775807int) by (nonlinear_arith)
                        requires q64 > 0;
                    assert(unit * q64 >= 0) by (nonlinear_arith)
                        requires unit >= 0, q64 >= 0;
                }
            }
            let delta = unit * q64;
            cand = match localtime::add_micros(cand, delta) {
                Some(t) => t,
                None => cand,
            };
        }
        if *i < toks.len() && tok_eq(toks[*i], "e") {
            *i = *i + 1;
        }
    }
    cand
}

/// A consumed weekday name moves the candidate to that weekday's next
/// occurrence.
fn configure_weekday(z: &Zone, cand: i64, toks: &Vec<&str>, i: &mut usize) -> (r: i64)
    requires
        civil::valid_instant(cand as int),
        *old(i) <= toks@.len(),
    ensures
        civil::valid_instant(r as int),
        *old(i) <= *final(i) <= toks@.len(),
        ({
            let pr = configure_weekday_spec(z@, cand as int, toks@, *old(i) as int);
            r as int == pr.0 && *final(i) as int == pr.1
        }),
{
    match try_parse_weekday(toks, i) {
        Some(w) => next_weekday_op(z, w, cand),
        None => cand,
    }
}

/// `alle <time>`: sets the clock, rolling to tomorrow cand already past.
fn at_time(z: &Zone, lower: i64, cand: i64, toks: &Vec<&str>, i: &mut usize) -> (r: i64)
    requires
        civil::valid_instant(cand as int),
        *old(i) <= toks@.len(),
    ensures
        civil::valid_instant(r as int),
        *old(i) <= *final(i) <= toks@.len(),
        ({
            let pr = at_time_spec(z@, lower as int, cand as int, toks@, *old(i) as int);
            r as int == pr.0 && *final(i) as int == pr.1
        }),
{
    match try_parse_time(toks, i) {
        Some(t) => try_set_time(z, &t, cand, lower),
        None => cand,
    }
}

/// `a <month> [year]`: sets the month and, cand given, the year.
fn at_month(z: &Zone, cand: i64, toks: &Vec<&str>, i: &mut usize) -> (r: i64)
    requires
        civil::valid_instant(cand as int),
        *old(i) <= toks@.len(),
    ensures
        civil::valid_instant(r as int),
        *old(i) <= *final(i) <= toks@.len(),
        ({
            let pr = at_month_spec(z@, cand as int, toks@, *old(i) as int);
            r as int == pr.0 && *final(i) as int == pr.1
        }),
{
    match try_parse_month(toks, i) {
        Some(m) => {
            match localtime::with_month(z, cand, m) {
                Some(d) => {
                    match try_parse_year(toks, i) {
                        Some(y) => {
                            match localtime::with_year(z, d, y) {
                                Some(d2) => d2,
                                None => d,
                            }
                        }
                        None => d,
                    }
                }
                None => cand,
            }
        }
        None => cand,
    }
}

/// `nel <year>`: moves to the first of January of that year.
fn at_beginning_of_year(z: &Zone, cand: i64, toks: &Vec<&str>, i: &mut usize) -> (r: i64)
    requires
        civil::valid_instant(cand as int),
        *old(i) <= toks@.len(),
    ensures
        civil::valid_instant(r as int),
        *old(i) <= *final(i) <= toks@.len(),
        ({
            let pr = at_beginning_of_year_spec(z@, cand as int, toks@, *old(i) as int);
            r as int == pr.0 && *final(i) as int == pr.1
        }),
{
    match try_parse_year(toks, i) {
        Some(y) => {
            match localtime::with_month(z, cand, 1) {
                Some(t1) => {
                    match localtime::with_day(z, t1, 1) {
                        Some(t2) => set_year_op(z, y, t2),
                        None => cand,
                    }
                }
                None => cand,
            }
        }
        None => cand,
    }
}

/// `il <day[/month[/year]]>` or `il <day> [month [year]]`: sets the date,
/// rolling forward cand the reading is already past.
fn at_date(z: &Zone, lower: i64, cand: i64, toks: &Vec<&str>, i: &mut usize) -> (r: i64)
    requires
        civil::valid_instant(cand as int),
        civil::valid_instant(lower as int),
        *old(i) <= toks@.len(),
    ensures
        civil::valid_instant(r as int),
        *old(i) <= *final(i) <= toks@.len(),
        ({
            let pr = at_date_spec(z@, lower as int, cand as int, toks@, *old(i) as int);
            r as int == pr.0 && *final(i) as int == pr.1
        }),
{
    if *i < toks.len() {
        match parse_date_token(toks[*i]) {
            Some(date) => {
                *i = *i + 1;
                match localtime::with_year(z, cand, date.0) {
                    Some(t1) => {
                        match localtime::with_month(z, t1, date.1) {
                            Some(t2) => {
                                match localtime::with_day(z, t2, date.2) {
                                    Some(t3) => {
                                        return t3;
                                    }
                                    None => {}
                                }
                            }
                            None => {}
                        }
                    }
                    None => {}
                }
            }
            None => {}
        }
    }
    let day = match try_parse_day(toks, i) {
        Some(d) => d,
        None => {
            return cand;
        }
    };
    let month = match try_parse_month(toks, i) {
        Some(m) => m,
        None => {
            return try_set_day(z, day, cand, lower);
        }
    };
    match try_parse_year(toks, i) {
        None => {
            let t = try_set_month(z, month, cand, lower);
            match localtime::with_day(z, t, 1) {
                Some(t1) => try_set_day(z, day, t1, lower),
                None => cand,
            }
        }
        Some(year) => {
            let t = set_year_op(z, year, cand);
            match localtime::with_month(z, t, 1) {
                Some(t1) => {
                    let t2 = try_set_month(z, month, t1, lower);
                    match localtime::with_day(z, t2, 1) {
                        Some(t3) => try_set_day(z, day, t3, lower),
                        None => cand,
                    }
                }
                None => cand,
            }
        }
    }
}

/// The fold of one single-firing walk: each keyword applies its clause to
/// the candidate instant, unknown tokens pass by, until the tokens run out.
pub open spec fn build_once_spec(tz: Seq<char>, now: int, cand: int, toks: Seq<&str>, i: int) -> int
    decreases toks.len() - i,
{
    if i < 0 || i >= toks.len() {
        cand
    } else {
        let tok = toks[i]@;
        let i1 = i + 1;
        let step: (int, int) = if tok == "tra"@ {
            advance_time_spec(cand, toks, i1)
        } else if tok == "alle"@ {
            at_time_spec(tz, now, cand, toks, i1)
        } else if tok == "il"@ || tok == "lo"@ || tok == "l"@ {
            at_date_spec(tz, now, cand, toks, i1)
        } else if tok == "a"@ || tok == "ad"@ {
            at_month_spec(tz, cand, toks, i1)
        } else if tok == "nel"@ {
            at_beginning_of_year_spec(tz, cand, toks, i1)
        } else if spec_weekday_name(tok) is Some {
            configure_weekday_spec(tz, cand, toks, i1)
        } else {
            (cand, i1)
        };
        let ni = if step.1 < i1 {
            i1
        } else if step.1 > toks.len() {
            toks.len() as int
        } else {
            step.1
        };
        build_once_spec(tz, now, step.0, toks, ni)
    }
}

/// Builds the instant of a single firing by walking the tokens once.
fn build_once(z: &Zone, now: i64, toks: &Vec<&str>, i: &mut usize) -> (r: i64)
    requires
        civil::valid_instant(now as int),
        *old(i) <= toks@.len(),
    ensures
        civil::valid_instant(r as int),
        r as int == build_once_spec(z@, now as int, now as int, toks@, *old(i) as int),
{
    let mut cand = now;
    while *i < toks.len()
        invariant
            civil::valid_instant(cand as int),
            civil::valid_instant(now as int),
            *i <= toks@.len(),
            build_once_spec(z@, now as int, cand as int, toks@, *i as int) == build_once_spec(
                z@,
                now as int,
                now as int,
                toks@,
                *old(i) as int,
            ),
        decreases (toks@.len() - *i),
    {
        let tok = toks[*i];
        *i = *i + 1;
        if tok_eq(tok, "tra") {
            cand = advance_time(z, cand, toks, i);
        } else if tok_eq(tok, "alle") {
            cand = at_time(z, now, cand, toks, i);
        } else if tok_eq(tok, "il") || tok_eq(tok, "lo") || tok_eq(tok, "l") {
            cand = at_date(z, now, cand, toks, i);
        } else if tok_eq(tok, "a") || tok_eq(tok, "ad") {
            cand = at_month(z, cand, toks, i);
        } else if tok_eq(tok, "nel") {
            cand = at_beginning_of_year(z, cand, toks, i);
        } else if weekday_name(tok).is_some() {
            cand = configure_weekday(z, cand, toks, i);
        }
    }
    cand
}

} // verus!

verus! {

/// `al <year-or-date>` in a bound context: a bare year past 1970 moves to
/// the first of the year after it; anything else reads as a date.
fn at_date_or_year(z: &Zone, date: i64, lower: i64, toks: &Vec<&str>, i: &mut usize) -> (r: i64)
    requires
        civil::valid_instant(date as int),
        civil::valid_instant(lower as int),
        *old(i) <= toks@.len(),
    ensures
        civil::valid_instant(r as int),
        *old(i) <= *final(i) <= toks@.len(),
        ({
            let pr = at_date_or_year_spec(z@, lower as int, date as int, toks@, *old(i) as int);
            r as int == pr.0 && *final(i) as int == pr.1
        }),
{
    if *i < toks.len() {
        match parse_num(toks[*i]) {
            Some(y) => {
                if y > 1970 {
                    *i = *i + 1;
                    let t = set_year_op(z, (y + 1) as i64, date);
                    return truncated_by_day(z, t);
                }
            }
            None => {}
        }
    }
    at_date(z, lower, date, toks, i)
}

/// Midnight at the start of the reading's day.
fn truncated_by_day(z: &Zone, t: i64) -> (r: i64)
    requires
        civil::valid_instant(t as int),
    ensures
        civil::valid_instant(r as int),
        r as int == trunc_day_result(z@, t as int),
{
    let v = localtime::local_view(z, t);
    proof {
        localtime::lemma_reading_day(z@, t as int, &v);
    }
    let v2 = localtime::LocalView { hour: 0, minute: 0, second: 0, frac: 0, ..v };
    match localtime::from_local(z, &v2) {
        Some(x) => x,
        None => t,
    }
}

/// `a <month-or-weekday>` in a bound context.
fn at_month_or_weekday(z: &Zone, date: i64, toks: &Vec<&str>, i: &mut usize) -> (r: i64)
    requires
        civil::valid_instant(date as int),
        *old(i) <= toks@.len(),
    ensures
        civil::valid_instant(r as int),
        *old(i) <= *final(i) <= toks@.len(),
        ({
            let pr = at_month_or_weekday_spec(z@, date as int, toks@, *old(i) as int);
            r as int == pr.0 && *final(i) as int == pr.1
        }),
{
    match try_parse_weekday(toks, i) {
        Some(w) => next_weekday_op(z, w, date),
        None => at_month(z, date, toks, i),
    }
}

/// The position after any run of connective `e` tokens.
pub open spec fn skip_connectives_spec(toks: Seq<&str>, i: int) -> int
    decreases toks.len() - i,
{
    if 0 <= i < toks.len() && toks[i]@ == "e"@ {
        skip_connectives_spec(toks, i + 1)
    } else {
        i
    }
}

/// An index clamped into the walkable range, used to keep the collector
/// folds well-founded; on every reachable path it is the identity.
pub open spec fn clamp_index(toks: Seq<&str>, lo: int, j: int) -> int {
    if j < lo {
        lo
    } else if j > toks.len() {
        toks.len() as int
    } else {
        j
    }
}

/// The month names listed from position `i`, connectives skipped, and the
/// position after them.
pub open spec fn collect_months_spec(toks: Seq<&str>, i: int) -> (Seq<int>, int)
    decreases toks.len() - i,
{
    if 0 <= i < toks.len() && spec_month_name(toks[i]@) is Some {
        let m = match spec_month_name(toks[i]@) {
            Some(m) => m,
            None => 0int,
        };
        let j = clamp_index(toks, i + 1, skip_connectives_spec(toks, i + 1));
        let rest = collect_months_spec(toks, j);
        (seq![m] + rest.0, rest.1)
    } else {
        (Seq::empty(), clamp_index(toks, i, skip_connectives_spec(toks, i)))
    }
}

/// The plain numbers up to 255 listed from position `i`, zeroes dropped,
/// connectives skipped, and the position after them.
pub open spec fn collect_numbers_spec(toks: Seq<&str>, i: int) -> (Seq<int>, int)
    decreases toks.len() - i,
{
    if 0 <= i < toks.len() && all_digits(toks[i]@) && toks[i]@.len() <= 9 && digits_val(toks[i]@)
        <= 255 {
        let v = digits_val(toks[i]@);
        let j = clamp_index(toks, i + 1, skip_connectives_spec(toks, i + 1));
        let rest = collect_numbers_spec(toks, j);
        (
            (if v >= 1 {
                seq![v]
            } else {
                Seq::empty()
            }) + rest.0,
            rest.1,
        )
    } else {
        (Seq::empty(), i)
    }
}

/// Skips the connective `e` tokens between list items.
fn skip_connectives(toks: &Vec<&str>, i: &mut usize)
    requires
        *old(i) <= toks@.len(),
    ensures
        *old(i) <= *final(i) <= toks@.len(),
        *final(i) as int == skip_connectives_spec(toks@, *old(i) as int),
{
    while *i < toks.len() && tok_eq(toks[*i], "e")
        invariant
            *old(i) <= (*i) <= toks@.len(),
            skip_connectives_spec(toks@, *i as int) == skip_connectives_spec(
                toks@,
                *old(i) as int,
            ),
        decreases (toks@.len() - *i),
    {
        *i = *i + 1;
    }
}

/// The fold of an upper-bound clause: `alle`/`al`/`a` steps applied to the
/// running bound until another keyword shows.
pub open spec fn until_walk_spec(
    tz: Seq<char>,
    since: int,
    nu: int,
    toks: Seq<&str>,
    i: int,
) -> (int, int)
    decreases toks.len() - i,
{
    if 0 <= i < toks.len() {
        let tok = toks[i]@;
        if tok == "alle"@ {
            let pr = at_time_spec(tz, since, nu, toks, i + 1);
            until_walk_spec(tz, since, pr.0, toks, clamp_index(toks, i + 1, pr.1))
        } else if tok == "al"@ || tok == "allo"@ || tok == "all"@ {
            let pr = at_date_or_year_spec(tz, since, nu, toks, i + 1);
            until_walk_spec(tz, since, pr.0, toks, clamp_index(toks, i + 1, pr.1))
        } else if tok == "a"@ || tok == "ad"@ {
            let pr = at_month_or_weekday_spec(tz, nu, toks, i + 1);
            until_walk_spec(tz, since, pr.0, toks, clamp_index(toks, i + 1, pr.1))
        } else {
            (nu, i)
        }
    } else {
        (nu, i)
    }
}

/// The fold of a lower-bound clause: `dalle`/`dal`/`da` steps applied to the
/// running bound until another keyword shows.
pub open spec fn since_walk_spec(
    tz: Seq<char>,
    now: int,
    ns: int,
    toks: Seq<&str>,
    i: int,
) -> (int, int)
    decreases toks.len() - i,
{
    if 0 <= i < toks.len() {
        let tok = toks[i]@;
        if tok == "dalle"@ {
            let pr = at_time_spec(tz, now, ns, toks, i + 1);
            since_walk_spec(tz, now, pr.0, toks, clamp_index(toks, i + 1, pr.1))
        } else if tok == "dal"@ || tok == "dallo"@ || tok == "dall"@ {
            let pr = at_date_or_year_spec(tz, now, ns, toks, i + 1);
            since_walk_spec(tz, now, pr.0, toks, clamp_index(toks, i + 1, pr.1))
        } else if tok == "da"@ {
            let pr = at_month_or_weekday_spec(tz, ns, toks, i + 1);
            since_walk_spec(tz, now, pr.0, toks, clamp_index(toks, i + 1, pr.1))
        } else {
            (ns, i)
        }
    } else {
        (ns, i)
    }
}

/// `fino al ... / al ...`: reads the upper bound of a recurrence.
fn set_until(
    z: &Zone,
    until: &mut Option<i64>,
    since: i64,
    toks: &Vec<&str>,
    i: &mut usize,
)
    requires
        civil::valid_instant(since as int),
        *old(i) <= toks@.len(),
    ensures
        *old(i) <= *final(i) <= toks@.len(),
        (*final(until)) matches Some(u) ==> civil::valid_instant(u as int),
        ({
            let pr = until_walk_spec(z@, since as int, since as int, toks@, *old(i) as int);
            (*final(until)) matches Some(u) && u as int == pr.0 && *final(i) as int == pr.1
        }),
{
    let mut nu = since;
    loop
        invariant_except_break
            until_walk_spec(z@, since as int, nu as int, toks@, *i as int) == until_walk_spec(
                z@,
                since as int,
                since as int,
                toks@,
                *old(i) as int,
            ),
        invariant
            civil::valid_instant(nu as int),
            civil::valid_instant(since as int),
            *old(i) <= (*i) <= toks@.len(),
        ensures
            civil::valid_instant(nu as int),
            *old(i) <= (*i) <= toks@.len(),
            (nu as int, *i as int) == until_walk_spec(
                z@,
                since as int,
                since as int,
                toks@,
                *old(i) as int,
            ),
        decreases (toks@.len() - *i),
    {
        if *i >= toks.len() {
            break;
        }
        let tok = toks[*i];
        if tok_eq(tok, "alle") {
            *i = *i + 1;
            nu = at_time(z, since, nu, toks, i);
        } else if tok_eq(tok, "al") || tok_eq(tok, "allo") || tok_eq(tok, "all") {
            *i = *i + 1;
            nu = at_date_or_year(z, nu, since, toks, i);
        } else if tok_eq(tok, "a") || tok_eq(tok, "ad") {
            *i = *i + 1;
            nu = at_month_or_weekday(z, nu, toks, i);
        } else {
            break;
        }
    }
    *until = Some(nu);
}

/// `dal ... / da ...`: reads the lower bound of a recurrence.
fn set_since(z: &Zone, since: &mut i64, now: i64, toks: &Vec<&str>, i: &mut usize)
    requires
        civil::valid_instant(*old(since) as int),
        civil::valid_instant(now as int),
        *old(i) <= toks@.len(),
    ensures
        civil::valid_instant(*final(since) as int),
        *old(i) <= *final(i) <= toks@.len(),
        ({
            let pr = since_walk_spec(z@, now as int, *old(since) as int, toks@, *old(i) as int);
            *final(since) as int == pr.0 && *final(i) as int == pr.1
        }),
{
    let mut ns = *since;
    loop
        invariant_except_break
            since_walk_spec(z@, now as int, ns as int, toks@, *i as int) == since_walk_spec(
                z@,
                now as int,
                *old(since) as int,
                toks@,
                *old(i) as int,
            ),
        invariant
            civil::valid_instant(ns as int),
            civil::valid_instant(now as int),
            *old(i) <= (*i) <= toks@.len(),
        ensures
            civil::valid_instant(ns as int),
            *old(i) <= (*i) <= toks@.len(),
            (ns as int, *i as int) == since_walk_spec(
                z@,
                now as int,
                *old(since) as int,
                toks@,
                *old(i) as int,
            ),
        decreases (toks@.len() - *i),
    {
        if *i >= toks.len() {
            break;
        }
        let tok = toks[*i];
        if tok_eq(tok, "dalle") {
            *i = *i + 1;
            ns = at_time(z, now, ns, toks, i);
        } else if tok_eq(tok, "dal") || tok_eq(tok, "dallo") || tok_eq(tok, "dall") {
            *i = *i + 1;
            ns = at_date_or_year(z, ns, now, toks, i);
        } else if tok_eq(tok, "da") {
            *i = *i + 1;
            ns = at_month_or_weekday(z, ns, toks, i);
        } else {
            break;
        }
    }
    *since = ns;
}

/// The clock times listed from position `i` and the position after them.
pub open spec fn collect_times_spec(toks: Seq<&str>, i: int) -> (Seq<(int, int, int)>, int)
    decreases toks.len() - i,
{
    let pr = parse_time_spec(toks, i);
    match pr.0 {
        Some(hms) => {
            let rest = collect_times_spec(toks, clamp_index(toks, i + 1, pr.1));
            (seq![hms] + rest.0, rest.1)
        },
        None => (Seq::empty(), pr.1),
    }
}

/// The ordinals listed from position `i`, connectives skipped, and the
/// position after them.
pub open spec fn collect_positions_spec(toks: Seq<&str>, i: int) -> (Seq<int>, int)
    decreases toks.len() - i,
{
    if 0 <= i < toks.len() && spec_position_name(toks[i]@) is Some {
        let p = match spec_position_name(toks[i]@) {
            Some(p) => p,
            None => 0int,
        };
        let j = clamp_index(toks, i + 1, skip_connectives_spec(toks, i + 1));
        let rest = collect_positions_spec(toks, j);
        (seq![p] + rest.0, rest.1)
    } else {
        (Seq::empty(), clamp_index(toks, i, skip_connectives_spec(toks, i)))
    }
}

/// The weekday names listed from position `i`, connectives skipped, and the
/// position after them.
pub open spec fn collect_weekdays_spec(toks: Seq<&str>, i: int) -> (Seq<int>, int)
    decreases toks.len() - i,
{
    if 0 <= i < toks.len() && spec_weekday_name(toks[i]@) is Some {
        let w = match spec_weekday_name(toks[i]@) {
            Some(w) => w,
            None => 0int,
        };
        let j = clamp_index(toks, i + 1, skip_connectives_spec(toks, i + 1));
        let rest = collect_weekdays_spec(toks, j);
        (seq![w] + rest.0, rest.1)
    } else {
        (Seq::empty(), clamp_index(toks, i, skip_connectives_spec(toks, i)))
    }
}

/// `alle <time>+`: narrows hours and minutes to the listed times.
fn set_time_schedule(z: &Zone, builder: &mut ScheduleGridBuilder, toks: &Vec<&str>, i: &mut usize)
    requires
        old(builder).wf(),
        *old(i) <= toks@.len(),
    ensures
        final(builder).wf(),
        *old(i) <= *final(i) <= toks@.len(),
        ({
            let ct = collect_times_spec(toks@, *old(i) as int);
            &&& *final(i) as int == ct.1
            &&& forall|b: int|
                final(builder).spec_hours().spec_get(b) == (0 <= b < 64 && exists|k: int|
                    0 <= k < ct.0.len() && (#[trigger] ct.0[k]).0 == b)
            &&& forall|b: int|
                final(builder).spec_minutes().spec_get(b) == (0 <= b < 64 && exists|k: int|
                    0 <= k < ct.0.len() && (#[trigger] ct.0[k]).1 == b)
            &&& final(builder).unchanged_but_times(*old(builder))
        }),
{
    let mut times: Vec<TimeOfDay> = Vec::new();
    let ghost ct = collect_times_spec(toks@, *i as int);
    loop
        invariant_except_break
            ({
                let rest = collect_times_spec(toks@, *i as int);
                ct.0 == times@.map_values(
                    |t: TimeOfDay| (t.hour as int, t.minute as int, t.second as int),
                ) + rest.0 && ct.1 == rest.1
            }),
        invariant
            builder.wf(),
            *old(i) <= (*i) <= toks@.len(),
            forall|j: int|
                0 <= j < times@.len() ==> (#[trigger] times@[j]).hour < 24 && times@[j].minute
                    < 60,
        ensures
            builder.wf(),
            *old(i) <= (*i) <= toks@.len(),
            forall|j: int|
                0 <= j < times@.len() ==> (#[trigger] times@[j]).hour < 24 && times@[j].minute
                    < 60,
            ct.0 == times@.map_values(
                |t: TimeOfDay| (t.hour as int, t.minute as int, t.second as int),
            ),
            ct.1 == *i as int,
        decreases (toks@.len() - *i),
    {
        let ghost prev_times = times@;
        let before = *i;
        match try_parse_time(toks, i) {
            Some(t) => {
                times.push(TimeOfDay { hour: t.hour, minute: t.minute, second: t.second });
                proof {
                    let f = |t2: TimeOfDay| (t2.hour as int, t2.minute as int, t2.second as int);
                    assert(times@.map_values(f) =~= prev_times.map_values(f) + seq![
                        (t.hour as int, t.minute as int, t.second as int),
                    ]);
                    assert(prev_times.map_values(f) + (seq![
                        (t.hour as int, t.minute as int, t.second as int),
                    ] + collect_times_spec(toks@, *i as int).0) =~= (prev_times.map_values(f)
                        + seq![(t.hour as int, t.minute as int, t.second as int)])
                        + collect_times_spec(toks@, *i as int).0);
                }
                if *i == before {
                    break;
                }
            }
            None => {
                proof {
                    let f = |t2: TimeOfDay| (t2.hour as int, t2.minute as int, t2.second as int);
                    assert(prev_times.map_values(f) + Seq::<(int, int, int)>::empty()
                        =~= prev_times.map_values(f));
                }
                break;
            }
        }
    }
    builder.with_times(times);
    proof {
        let f = |t2: TimeOfDay| (t2.hour as int, t2.minute as int, t2.second as int);
        assert forall|b: int|
            builder.spec_hours().spec_get(b) == (0 <= b < 64 && exists|k: int|
                0 <= k < ct.0.len() && (#[trigger] ct.0[k]).0 == b) by {
            if exists|k: int| 0 <= k < ct.0.len() && (#[trigger] ct.0[k]).0 == b {
                let k = choose|k: int| 0 <= k < ct.0.len() && (#[trigger] ct.0[k]).0 == b;
                assert(times@[k].hour as int == b);
            }
            if exists|k: int| 0 <= k < times@.len() && #[trigger] times@[k].hour as int == b {
                let k = choose|k: int|
                    0 <= k < times@.len() && #[trigger] times@[k].hour as int == b;
                assert(ct.0[k].0 == b);
            }
        }
        assert forall|b: int|
            builder.spec_minutes().spec_get(b) == (0 <= b < 64 && exists|k: int|
                0 <= k < ct.0.len() && (#[trigger] ct.0[k]).1 == b) by {
            if exists|k: int| 0 <= k < ct.0.len() && (#[trigger] ct.0[k]).1 == b {
                let k = choose|k: int| 0 <= k < ct.0.len() && (#[trigger] ct.0[k]).1 == b;
                assert(times@[k].minute as int == b);
            }
            if exists|k: int| 0 <= k < times@.len() && #[trigger] times@[k].minute as int == b {
                let k = choose|k: int|
                    0 <= k < times@.len() && #[trigger] times@[k].minute as int == b;
                assert(ct.0[k].1 == b);
            }
        }
    }
}

/// `<ordinal>+ <weekday>+`: narrows weeks of the month and weekdays to
/// exactly the listed ones; an absent list leaves its bitmap alone.
fn set_weekday_schedule(builder: &mut ScheduleGridBuilder, toks: &Vec<&str>, i: &mut usize)
    requires
        old(builder).wf(),
        *old(i) <= toks@.len(),
    ensures
        final(builder).wf(),
        *old(i) <= *final(i) <= toks@.len(),
        ({
            let cp = collect_positions_spec(toks@, *old(i) as int);
            let cw = collect_weekdays_spec(toks@, cp.1);
            &&& *final(i) as int == cw.1
            &&& (if cp.0.len() > 0 {
                forall|b: int|
                    final(builder).spec_weeks_of_month().spec_get(b) == (cp.0.contains(b) && 0 <= b
                        < 8)
            } else {
                final(builder).spec_weeks_of_month() == old(builder).spec_weeks_of_month()
            })
            &&& (if cw.0.len() > 0 {
                forall|b: int|
                    final(builder).spec_days_of_week().spec_get(b) == (cw.0.contains(b) && 0 <= b
                        < 8)
            } else {
                final(builder).spec_days_of_week() == old(builder).spec_days_of_week()
            })
            &&& final(builder).spec_minutes() == old(builder).spec_minutes()
            &&& final(builder).spec_hours() == old(builder).spec_hours()
            &&& final(builder).spec_days_of_month() == old(builder).spec_days_of_month()
            &&& final(builder).spec_months_of_year() == old(builder).spec_months_of_year()
            &&& final(builder).spec_year_cadence() == old(builder).spec_year_cadence()
            &&& final(builder).spec_year_start() == old(builder).spec_year_start()
            &&& final(builder).spec_timezone() == old(builder).spec_timezone()
        }),
{
    let mut positions: Vec<usize> = Vec::new();
    let ghost cp = collect_positions_spec(toks@, *i as int);
    loop
        invariant_except_break
            ({
                let rest = collect_positions_spec(toks@, *i as int);
                cp.0 == positions@.map_values(|v: usize| v as int) + rest.0 && cp.1 == rest.1
            }),
        invariant
            *old(i) <= (*i) <= toks@.len(),
        ensures
            *old(i) <= (*i) <= toks@.len(),
            cp.0 == positions@.map_values(|v: usize| v as int),
            cp.1 == *i as int,
        decreases (toks@.len() - *i),
    {
        let ghost prev = positions@;
        let p = try_parse_position(toks, i);
        skip_connectives(toks, i);
        match p {
            Some(pv) => {
                positions.push(pv);
                proof {
                    let f = |v: usize| v as int;
                    assert(positions@.map_values(f) =~= prev.map_values(f) + seq![pv as int]);
                    assert(prev.map_values(f) + (seq![pv as int] + collect_positions_spec(
                        toks@,
                        *i as int,
                    ).0) =~= (prev.map_values(f) + seq![pv as int]) + collect_positions_spec(
                        toks@,
                        *i as int,
                    ).0);
                }
            }
            None => {
                proof {
                    let f = |v: usize| v as int;
                    assert(prev.map_values(f) + Seq::<int>::empty() =~= prev.map_values(f));
                }
                break;
            }
        }
    }
    if positions.len() > 0 {
        let ghost pview = positions@;
        builder.with_weeks_of_month(positions);
        proof {
            assert forall|b: int|
                builder.spec_weeks_of_month().spec_get(b) == (cp.0.contains(b) && 0 <= b < 8) by {
                if cp.0.contains(b) {
                    let k = choose|k: int| 0 <= k < cp.0.len() && cp.0[k] == b;
                    assert(pview[k] as int == b);
                }
                if crate::bitmap::Bitmap::listed(pview, b) {
                    let k = choose|k: int|
                        0 <= k < pview.len() && #[trigger] pview[k] as int == b;
                    assert(cp.0[k] == b);
                }
            }
        }
    }
    let mut weekdays: Vec<usize> = Vec::new();
    let ghost cw = collect_weekdays_spec(toks@, *i as int);
    loop
        invariant_except_break
            ({
                let rest = collect_weekdays_spec(toks@, *i as int);
                cw.0 == weekdays@.map_values(|v: usize| v as int) + rest.0 && cw.1 == rest.1
            }),
        invariant
            *old(i) <= (*i) <= toks@.len(),
        ensures
            *old(i) <= (*i) <= toks@.len(),
            cw.0 == weekdays@.map_values(|v: usize| v as int),
            cw.1 == *i as int,
        decreases (toks@.len() - *i),
    {
        let ghost prev = weekdays@;
        let w = try_parse_weekday(toks, i);
        skip_connectives(toks, i);
        match w {
            Some(wv) => {
                weekdays.push(wv as usize);
                proof {
                    let f = |v: usize| v as int;
                    assert(weekdays@.map_values(f) =~= prev.map_values(f) + seq![wv as int]);
                    assert(prev.map_values(f) + (seq![wv as int] + collect_weekdays_spec(
                        toks@,
                        *i as int,
                    ).0) =~= (prev.map_values(f) + seq![wv as int]) + collect_weekdays_spec(
                        toks@,
                        *i as int,
                    ).0);
                }
            }
            None => {
                proof {
                    let f = |v: usize| v as int;
                    assert(prev.map_values(f) + Seq::<int>::empty() =~= prev.map_values(f));
                }
                break;
            }
        }
    }
    if weekdays.len() > 0 {
        let ghost wview = weekdays@;
        builder.with_weekdays(weekdays);
        proof {
            assert forall|b: int|
                builder.spec_days_of_week().spec_get(b) == (cw.0.contains(b) && 0 <= b < 8) by {
                if cw.0.contains(b) {
                    let k = choose|k: int| 0 <= k < cw.0.len() && cw.0[k] == b;
                    assert(wview[k] as int == b);
                }
                if crate::bitmap::Bitmap::listed(wview, b) {
                    let k = choose|k: int|
                        0 <= k < wview.len() && #[trigger] wview[k] as int == b;
                    assert(cw.0[k] == b);
                }
            }
        }
    }
}

/// `<month>+`: narrows the months of the year to exactly the listed ones.
fn set_month_schedule(builder: &mut ScheduleGridBuilder, toks: &Vec<&str>, i: &mut usize)
    requires
        old(builder).wf(),
        *old(i) <= toks@.len(),
    ensures
        final(builder).wf(),
        *old(i) <= *final(i) <= toks@.len(),
        ({
            let cm = collect_months_spec(toks@, *old(i) as int);
            &&& *final(i) as int == cm.1
            &&& forall|b: int|
                final(builder).spec_months_of_year().spec_get(b) == (cm.0.contains(b + 1) && 0 <= b
                    < 16)
            &&& final(builder).spec_weeks_of_month() == old(builder).spec_weeks_of_month()
            &&& final(builder).spec_days_of_week() == old(builder).spec_days_of_week()
            &&& final(builder).spec_minutes() == old(builder).spec_minutes()
            &&& final(builder).spec_hours() == old(builder).spec_hours()
            &&& final(builder).spec_days_of_month() == old(builder).spec_days_of_month()
            &&& final(builder).spec_year_cadence() == old(builder).spec_year_cadence()
            &&& final(builder).spec_year_start() == old(builder).spec_year_start()
            &&& final(builder).spec_timezone() == old(builder).spec_timezone()
        }),
{
    let mut months: Vec<u8> = Vec::new();
    let ghost cm = collect_months_spec(toks@, *i as int);
    loop
        invariant_except_break
            ({
                let rest = collect_months_spec(toks@, *i as int);
                cm.0 == months@.map_values(|v: u8| v as int) + rest.0 && cm.1 == rest.1
            }),
        invariant
            *old(i) <= (*i) <= toks@.len(),
            forall|j: int| 0 <= j < months@.len() ==> 1 <= #[trigger] months@[j] <= 12,
        ensures
            *old(i) <= (*i) <= toks@.len(),
            forall|j: int| 0 <= j < months@.len() ==> 1 <= #[trigger] months@[j] <= 12,
            cm.0 == months@.map_values(|v: u8| v as int),
            cm.1 == *i as int,
        decreases (toks@.len() - *i),
    {
        let ghost prev_months = months@;
        let ghost i_at = *i as int;
        let m = try_parse_month(toks, i);
        skip_connectives(toks, i);
        match m {
            Some(mv) => {
                months.push(mv as u8);
                proof {
                    assert(months@.map_values(|v: u8| v as int) =~= prev_months.map_values(
                        |v: u8| v as int,
                    ) + seq![mv as int]);
                    assert(seq![mv as int] + collect_months_spec(toks@, *i as int).0
                        =~= collect_months_spec(toks@, i_at).0);
                    assert(prev_months.map_values(|v: u8| v as int) + (seq![mv as int]
                        + collect_months_spec(toks@, *i as int).0) =~= (prev_months.map_values(
                        |v: u8| v as int,
                    ) + seq![mv as int]) + collect_months_spec(toks@, *i as int).0);
                }
            }
            None => {
                proof {
                    assert(collect_months_spec(toks@, i_at).0 =~= Seq::<int>::empty());
                    assert(prev_months.map_values(|v: u8| v as int) + Seq::<int>::empty()
                        =~= prev_months.map_values(|v: u8| v as int));
                }
                break;
            }
        }
    }
    builder.with_months(months);
    proof {
        assert forall|b: int|
            builder.spec_months_of_year().spec_get(b) == (cm.0.contains(b + 1) && 0 <= b < 16) by {
            if cm.0.contains(b + 1) {
                let j = choose|j: int| 0 <= j < cm.0.len() && cm.0[j] == b + 1;
                assert(months@[j] as int - 1 == b);
            }
            if exists|j: int| 0 <= j < months@.len() && #[trigger] months@[j] as int - 1 == b {
                let j = choose|j: int|
                    0 <= j < months@.len() && #[trigger] months@[j] as int - 1 == b;
                assert(cm.0[j] == b + 1);
            }
        }
    }
}

/// `D/M`: narrows to one day of one month; a token without a readable
/// day/month pair is consumed and changes nothing.
fn set_date_schedule(builder: &mut ScheduleGridBuilder, toks: &Vec<&str>, i: &mut usize)
    requires
        old(builder).wf(),
        *old(i) < toks@.len(),
    ensures
        final(builder).wf(),
        *final(i) == *old(i) + 1,
        ({
            let ps = split_values(toks@[*old(i) as int]@, '.', '-', '/');
            if ps.len() >= 2 && 1 <= ps[0] <= 31 && 1 <= ps[1] <= 12 {
                &&& forall|b: int|
                    final(builder).spec_days_of_month().spec_get(b) == (b == ps[0] - 1)
                &&& forall|b: int|
                    final(builder).spec_months_of_year().spec_get(b) == (b == ps[1] - 1)
                &&& final(builder).spec_weeks_of_month() == old(builder).spec_weeks_of_month()
                &&& final(builder).spec_days_of_week() == old(builder).spec_days_of_week()
                &&& final(builder).spec_minutes() == old(builder).spec_minutes()
                &&& final(builder).spec_hours() == old(builder).spec_hours()
                &&& final(builder).spec_year_cadence() == old(builder).spec_year_cadence()
                &&& final(builder).spec_year_start() == old(builder).spec_year_start()
                &&& final(builder).spec_timezone() == old(builder).spec_timezone()
            } else {
                *final(builder) == *old(builder)
            }
        }),
{
    let n = toks.len();
    let tok = toks[*i];
    *i = *i + 1;
    match parse_day_month_token(tok) {
        Some(dm) => {
            let mut days: Vec<u8> = Vec::new();
            days.push(dm.0);
            proof {
                assert(days@[0] == dm.0 && days@.len() == 1);
            }
            builder.with_days_of_month(days);
            let mut months: Vec<u8> = Vec::new();
            months.push(dm.1);
            proof {
                assert(months@[0] == dm.1 && months@.len() == 1);
            }
            builder.with_months(months);
            proof {
                let ps = split_values(toks@[*old(i) as int]@, '.', '-', '/');
                assert forall|b: int|
                    builder.spec_days_of_month().spec_get(b) == (b == ps[0] - 1) by {
                    if b == ps[0] - 1 {
                        assert(days@[0] as int - 1 == b);
                    }
                }
                assert forall|b: int|
                    builder.spec_months_of_year().spec_get(b) == (b == ps[1] - 1) by {
                    if b == ps[1] - 1 {
                        assert(months@[0] as int - 1 == b);
                    }
                }
            }
        }
        None => {}
    }
}

/// Bare numbers: a year cadence (`N anni`), days of the month (`N del mese`)
/// or days within months (`N di <month>+`); anything else leaves the grid as
/// it was.
fn set_numeric_schedule(builder: &mut ScheduleGridBuilder, toks: &Vec<&str>, i: &mut usize)
    requires
        old(builder).wf(),
        *old(i) <= toks@.len(),
    ensures
        final(builder).wf(),
        *old(i) <= *final(i) <= toks@.len(),
        ({
            let cn = collect_numbers_spec(toks@, *old(i) as int);
            let j = cn.1;
            if j >= toks@.len() {
                *final(builder) == *old(builder) && *final(i) as int == j
            } else if toks@[j]@ == "anni"@ {
                &&& *final(i) as int == j + 1
                &&& final(builder).spec_year_cadence() == (if cn.0.len() > 0 {
                    cn.0.last()
                } else {
                    1int
                })
                &&& final(builder).spec_year_start() == old(builder).spec_year_start()
                &&& final(builder).spec_minutes() == old(builder).spec_minutes()
                &&& final(builder).spec_hours() == old(builder).spec_hours()
                &&& final(builder).spec_weeks_of_month() == old(builder).spec_weeks_of_month()
                &&& final(builder).spec_days_of_month() == old(builder).spec_days_of_month()
                &&& final(builder).spec_days_of_week() == old(builder).spec_days_of_week()
                &&& final(builder).spec_months_of_year() == old(builder).spec_months_of_year()
                &&& final(builder).spec_timezone() == old(builder).spec_timezone()
            } else if toks@[j]@ == "del"@ {
                if j + 1 < toks@.len() && toks@[j + 1]@ == "mese"@ {
                    &&& *final(i) as int == j + 2
                    &&& forall|b: int|
                        final(builder).spec_days_of_month().spec_get(b) == (cn.0.contains(b + 1)
                            && 0 <= b < 32)
                    &&& final(builder).spec_year_cadence() == old(builder).spec_year_cadence()
                    &&& final(builder).spec_year_start() == old(builder).spec_year_start()
                    &&& final(builder).spec_minutes() == old(builder).spec_minutes()
                    &&& final(builder).spec_hours() == old(builder).spec_hours()
                    &&& final(builder).spec_weeks_of_month() == old(builder).spec_weeks_of_month()
                    &&& final(builder).spec_days_of_week() == old(builder).spec_days_of_week()
                    &&& final(builder).spec_months_of_year() == old(
                        builder,
                    ).spec_months_of_year()
                    &&& final(builder).spec_timezone() == old(builder).spec_timezone()
                } else {
                    *final(builder) == *old(builder) && *final(i) as int == j + 1
                }
            } else if toks@[j]@ == "di"@ {
                let cmm = collect_months_spec(toks@, j + 1);
                &&& *final(i) as int == cmm.1
                &&& forall|b: int|
                    final(builder).spec_days_of_month().spec_get(b) == (cn.0.contains(b + 1) && 0
                        <= b < 32)
                &&& forall|b: int|
                    final(builder).spec_months_of_year().spec_get(b) == (cmm.0.contains(b + 1)
                        && 0 <= b < 16)
                &&& final(builder).spec_year_cadence() == old(builder).spec_year_cadence()
                &&& final(builder).spec_year_start() == old(builder).spec_year_start()
                &&& final(builder).spec_minutes() == old(builder).spec_minutes()
                &&& final(builder).spec_hours() == old(builder).spec_hours()
                &&& final(builder).spec_weeks_of_month() == old(builder).spec_weeks_of_month()
                &&& final(builder).spec_days_of_week() == old(builder).spec_days_of_week()
                &&& final(builder).spec_timezone() == old(builder).spec_timezone()
            } else {
                *final(builder) == *old(builder) && *final(i) as int == j
            }
        }),
{
    let mut numbers: Vec<u8> = Vec::new();
    let ghost cn = collect_numbers_spec(toks@, *i as int);
    loop
        invariant_except_break
            ({
                let rest = collect_numbers_spec(toks@, *i as int);
                cn.0 == numbers@.map_values(|v: u8| v as int) + rest.0 && cn.1 == rest.1
            }),
        invariant
            *old(i) <= (*i) <= toks@.len(),
            forall|j: int| 0 <= j < numbers@.len() ==> 1 <= #[trigger] numbers@[j],
        ensures
            *old(i) <= (*i) <= toks@.len(),
            forall|j: int| 0 <= j < numbers@.len() ==> 1 <= #[trigger] numbers@[j],
            cn.0 == numbers@.map_values(|v: u8| v as int),
            cn.1 == *i as int,
        decreases (toks@.len() - *i),
    {
        let ghost prev_numbers = numbers@;
        let ghost i_at = *i as int;
        if *i >= toks.len() {
            proof {
                assert(prev_numbers.map_values(|v: u8| v as int) + Seq::<int>::empty()
                    =~= prev_numbers.map_values(|v: u8| v as int));
            }
            break;
        }
        match parse_num(toks[*i]) {
            Some(v) => {
                if v > 255 {
                    proof {
                        assert(prev_numbers.map_values(|v2: u8| v2 as int) + Seq::<int>::empty()
                            =~= prev_numbers.map_values(|v2: u8| v2 as int));
                    }
                    break;
                }
                *i = *i + 1;
                if v >= 1 {
                    numbers.push(v as u8);
                }
                skip_connectives(toks, i);
                proof {
                    if v >= 1 {
                        assert(numbers@.map_values(|v2: u8| v2 as int) =~= prev_numbers.map_values(
                            |v2: u8| v2 as int,
                        ) + seq![v as int]);
                        assert(prev_numbers.map_values(|v2: u8| v2 as int) + (seq![v as int]
                            + collect_numbers_spec(toks@, *i as int).0)
                            =~= (prev_numbers.map_values(|v2: u8| v2 as int) + seq![v as int])
                            + collect_numbers_spec(toks@, *i as int).0);
                    } else {
                        assert(Seq::<int>::empty() + collect_numbers_spec(toks@, *i as int).0
                            =~= collect_numbers_spec(toks@, *i as int).0);
                    }
                }
            }
            None => {
                proof {
                    assert(prev_numbers.map_values(|v2: u8| v2 as int) + Seq::<int>::empty()
                        =~= prev_numbers.map_values(|v2: u8| v2 as int));
                }
                break;
            }
        }
    }
    if *i >= toks.len() {
        return ;
    }
    let tok = toks[*i];
    if tok_eq(tok, "anni") {
        *i = *i + 1;
        let cadence: u8 = if numbers.len() > 0 {
            numbers[numbers.len() - 1]
        } else {
            1
        };
        proof {
            if numbers@.len() > 0 {
                assert(cn.0.last() == numbers@[numbers@.len() - 1] as int);
            }
        }
        builder.with_year_cadence(cadence);
    } else if tok_eq(tok, "del") {
        *i = *i + 1;
        if *i < toks.len() && tok_eq(toks[*i], "mese") {
            *i = *i + 1;
            builder.with_days_of_month(numbers);
            proof {
                lemma_listed_days(cn.0, builder.spec_days_of_month(), numbers@);
            }
        }
    } else if tok_eq(tok, "di") {
        *i = *i + 1;
        let ghost nums_view = numbers@;
        builder.with_days_of_month(numbers);
        proof {
            lemma_listed_days(cn.0, builder.spec_days_of_month(), nums_view);
        }
        set_month_schedule(builder, toks, i);
    }
}

/// Bridges a narrowed day-of-month bitmap to the collected number list.
proof fn lemma_listed_days(vals: Seq<int>, bm: crate::bitmap::Bitmap, days: Seq<u8>)
    requires
        vals == days.map_values(|v: u8| v as int),
        forall|b: int|
            bm.spec_get(b) == ((exists|j: int| 0 <= j < days.len() && #[trigger] days[j] as int - 1
                == b) && 0 <= b < 32),
    ensures
        forall|b: int| bm.spec_get(b) == (vals.contains(b + 1) && 0 <= b < 32),
{
    assert forall|b: int| bm.spec_get(b) == (vals.contains(b + 1) && 0 <= b < 32) by {
        if vals.contains(b + 1) {
            let j = choose|j: int| 0 <= j < vals.len() && vals[j] == b + 1;
            assert(days[j] as int - 1 == b);
        }
        if exists|j: int| 0 <= j < days.len() && #[trigger] days[j] as int - 1 == b {
            let j = choose|j: int| 0 <= j < days.len() && #[trigger] days[j] as int - 1 == b;
            assert(vals[j] == b + 1);
        }
    }
}

/// Where a number clause ends, given where its numbers end.
pub open spec fn numeric_clause_end(toks: Seq<&str>, i: int) -> int {
    let j = collect_numbers_spec(toks, i).1;
    if j >= toks.len() {
        j
    } else if toks[j]@ == "anni"@ {
        j + 1
    } else if toks[j]@ == "del"@ {
        if j + 1 < toks.len() && toks[j + 1]@ == "mese"@ {
            j + 2
        } else {
            j + 1
        }
    } else if toks[j]@ == "di"@ {
        collect_months_spec(toks, j + 1).1
    } else {
        j
    }
}

/// Where one whole `ogni ...` clause ends: its sub-clauses walked in the
/// dispatch order until a keyword stops the clause.
pub open spec fn set_schedule_end(toks: Seq<&str>, i: int) -> int
    decreases toks.len() - i,
{
    if 0 <= i < toks.len() {
        let tok = toks[i]@;
        if tok == "fino"@ || tok == "al"@ || tok == "all"@ || tok == "a"@ || tok == "ad"@ || tok
            == "dal"@ || tok == "da"@ || tok == "dall"@ || tok == "alle"@ || tok == "ogni"@ {
            i
        } else {
            let step: int = if spec_position_name(tok) is Some || spec_weekday_name(tok)
                is Some {
                collect_weekdays_spec(toks, collect_positions_spec(toks, i).1).1
            } else if tok == "di"@ {
                i + 1
            } else if spec_month_name(tok) is Some {
                collect_months_spec(toks, i).1
            } else if exists|j: int| 0 <= j < tok.len() && is_date_separator(#[trigger] tok[j]) {
                i + 1
            } else if all_digits(tok) && tok.len() <= 9 {
                numeric_clause_end(toks, i)
            } else {
                i + 1
            };
            set_schedule_end(
                toks,
                clamp_index(
                    toks,
                    i + 1,
                    if step < i + 1 {
                        i + 1
                    } else {
                        step
                    },
                ),
            )
        }
    } else {
        i
    }
}

/// The lower and upper bounds a recurrence walk reads, and where it ends:
/// every clause of the loop tracked by the position it consumes to, the
/// bound clauses by their values too.
pub open spec fn recur_bounds_spec(
    tz: Seq<char>,
    now: int,
    since: int,
    until: Option<int>,
    toks: Seq<&str>,
    i: int,
) -> (int, Option<int>) 
    decreases toks.len() - i,
{
    if 0 <= i < toks.len() {
        let tok = toks[i]@;
        if tok == "ogni"@ {
            let ni = set_schedule_end(toks, clamp_index(toks, i + 1, i + 1));
            recur_bounds_spec(tz, now, since, until, toks, clamp_index(toks, i + 1, ni))
        } else if tok == "al"@ || tok == "all"@ || tok == "allo"@ || tok == "a"@ || tok
            == "ad"@ {
            let pr = until_walk_spec(tz, since, since, toks, i);
            recur_bounds_spec(
                tz,
                now,
                since,
                Some(pr.0),
                toks,
                clamp_index(toks, i + 1, pr.1),
            )
        } else if tok == "dal"@ || tok == "da"@ || tok == "dall"@ {
            let pr = since_walk_spec(tz, now, since, toks, i);
            recur_bounds_spec(tz, now, pr.0, until, toks, clamp_index(toks, i + 1, pr.1))
        } else if tok == "alle"@ {
            let ni = collect_times_spec(toks, i + 1).1;
            recur_bounds_spec(tz, now, since, until, toks, clamp_index(toks, i + 1, ni))
        } else {
            recur_bounds_spec(tz, now, since, until, toks, i + 1)
        }
    } else {
        (since, until)
    }
}

/// The calendar constraints a recurrence walk has built so far: the set of
/// positions each bitmap holds, plus the cadence.
pub struct GridShape {
    pub minutes: Set<int>,
    pub hours: Set<int>,
    pub weeks_of_month: Set<int>,
    pub days_of_month: Set<int>,
    pub days_of_week: Set<int>,
    pub months_of_year: Set<int>,
    pub cadence: int,
}

/// Whether a builder's bitmaps and cadence read exactly as a shape says.
pub open spec fn builder_shaped(b: &ScheduleGridBuilder, g: GridShape) -> bool {
    &&& forall|i: int| b.spec_minutes().spec_get(i) == g.minutes.contains(i)
    &&& forall|i: int| b.spec_hours().spec_get(i) == g.hours.contains(i)
    &&& forall|i: int| b.spec_weeks_of_month().spec_get(i) == g.weeks_of_month.contains(i)
    &&& forall|i: int| b.spec_days_of_month().spec_get(i) == g.days_of_month.contains(i)
    &&& forall|i: int| b.spec_days_of_week().spec_get(i) == g.days_of_week.contains(i)
    &&& forall|i: int| b.spec_months_of_year().spec_get(i) == g.months_of_year.contains(i)
    &&& b.spec_year_cadence() == g.cadence
}

/// What an ordinal/weekday sub-clause makes of the shape.
pub open spec fn weekday_shape(g: GridShape, toks: Seq<&str>, i: int) -> GridShape {
    let cp = collect_positions_spec(toks, i);
    let cw = collect_weekdays_spec(toks, cp.1);
    GridShape {
        weeks_of_month: if cp.0.len() > 0 {
            Set::new(|b: int| cp.0.contains(b) && 0 <= b < 8)
        } else {
            g.weeks_of_month
        },
        days_of_week: if cw.0.len() > 0 {
            Set::new(|b: int| cw.0.contains(b) && 0 <= b < 8)
        } else {
            g.days_of_week
        },
        ..g
    }
}

/// What a month-list sub-clause makes of the shape.
pub open spec fn month_shape(g: GridShape, toks: Seq<&str>, i: int) -> GridShape {
    let cm = collect_months_spec(toks, i);
    GridShape { months_of_year: Set::new(|b: int| cm.0.contains(b + 1) && 0 <= b < 16), ..g }
}

/// What a `D/M` sub-clause makes of the shape.
pub open spec fn date_shape(g: GridShape, toks: Seq<&str>, i: int) -> GridShape {
    let ps = split_values(toks[i]@, '.', '-', '/');
    if ps.len() >= 2 && 1 <= ps[0] <= 31 && 1 <= ps[1] <= 12 {
        GridShape {
            days_of_month: Set::new(|b: int| b == ps[0] - 1),
            months_of_year: Set::new(|b: int| b == ps[1] - 1),
            ..g
        }
    } else {
        g
    }
}

/// What an `alle <time>+` clause makes of the shape.
pub open spec fn times_shape(g: GridShape, toks: Seq<&str>, i: int) -> GridShape {
    let ct = collect_times_spec(toks, i);
    GridShape {
        hours: Set::new(|b: int| 0 <= b < 64 && exists|k: int|
            0 <= k < ct.0.len() && (#[trigger] ct.0[k]).0 == b),
        minutes: Set::new(|b: int| 0 <= b < 64 && exists|k: int|
            0 <= k < ct.0.len() && (#[trigger] ct.0[k]).1 == b),
        ..g
    }
}

/// What one `ogni ...` clause makes of the shape, sub-clause by sub-clause.
pub open spec fn apply_set_schedule(g: GridShape, toks: Seq<&str>, i: int) -> GridShape
    decreases toks.len() - i,
{
    if 0 <= i < toks.len() {
        let tok = toks[i]@;
        if tok == "fino"@ || tok == "al"@ || tok == "all"@ || tok == "a"@ || tok == "ad"@ || tok
            == "dal"@ || tok == "da"@ || tok == "dall"@ || tok == "alle"@ || tok == "ogni"@ {
            g
        } else {
            let g2: GridShape = if spec_position_name(tok) is Some || spec_weekday_name(tok)
                is Some {
                weekday_shape(g, toks, i)
            } else if tok == "di"@ {
                g
            } else if spec_month_name(tok) is Some {
                month_shape(g, toks, i)
            } else if exists|j: int| 0 <= j < tok.len() && is_date_separator(#[trigger] tok[j]) {
                date_shape(g, toks, i)
            } else if all_digits(tok) && tok.len() <= 9 {
                apply_numeric_clause(g, toks, i)
            } else {
                g
            };
            let step: int = if spec_position_name(tok) is Some || spec_weekday_name(tok)
                is Some {
                collect_weekdays_spec(toks, collect_positions_spec(toks, i).1).1
            } else if tok == "di"@ {
                i + 1
            } else if spec_month_name(tok) is Some {
                collect_months_spec(toks, i).1
            } else if exists|j: int| 0 <= j < tok.len() && is_date_separator(#[trigger] tok[j]) {
                i + 1
            } else if all_digits(tok) && tok.len() <= 9 {
                numeric_clause_end(toks, i)
            } else {
                i + 1
            };
            apply_set_schedule(
                g2,
                toks,
                clamp_index(
                    toks,
                    i + 1,
                    if step < i + 1 {
                        i + 1
                    } else {
                        step
                    },
                ),
            )
        }
    } else {
        g
    }
}

/// What a bare-number clause makes of the shape.
pub open spec fn apply_numeric_clause(g: GridShape, toks: Seq<&str>, i: int) -> GridShape {
    let cn = collect_numbers_spec(toks, i);
    let j = cn.1;
    if j >= toks.len() {
        g
    } else if toks[j]@ == "anni"@ {
        GridShape {
            cadence: if cn.0.len() > 0 {
                cn.0.last()
            } else {
                1
            },
            ..g
        }
    } else if toks[j]@ == "del"@ {
        if j + 1 < toks.len() && toks[j + 1]@ == "mese"@ {
            GridShape {
                days_of_month: Set::new(|b: int| cn.0.contains(b + 1) && 0 <= b < 32),
                ..g
            }
        } else {
            g
        }
    } else if toks[j]@ == "di"@ {
        let cm = collect_months_spec(toks, j + 1);
        GridShape {
            days_of_month: Set::new(|b: int| cn.0.contains(b + 1) && 0 <= b < 32),
            months_of_year: Set::new(|b: int| cm.0.contains(b + 1) && 0 <= b < 16),
            ..g
        }
    } else {
        g
    }
}

/// What the whole recurrence walk makes of the shape: `ogni` and `alle`
/// clauses applied in order, the bound clauses stepped over exactly as the
/// bounds fold walks them.
pub open spec fn recur_shape_spec(
    g: GridShape,
    tz: Seq<char>,
    now: int,
    since: int,
    toks: Seq<&str>,
    i: int,
) -> GridShape
    decreases toks.len() - i,
{
    if 0 <= i < toks.len() {
        let tok = toks[i]@;
        if tok == "ogni"@ {
            let g2 = apply_set_schedule(g, toks, clamp_index(toks, i + 1, i + 1));
            let ni = set_schedule_end(toks, clamp_index(toks, i + 1, i + 1));
            recur_shape_spec(g2, tz, now, since, toks, clamp_index(toks, i + 1, ni))
        } else if tok == "al"@ || tok == "all"@ || tok == "allo"@ || tok == "a"@ || tok
            == "ad"@ {
            let pr = until_walk_spec(tz, since, since, toks, i);
            recur_shape_spec(g, tz, now, since, toks, clamp_index(toks, i + 1, pr.1))
        } else if tok == "dal"@ || tok == "da"@ || tok == "dall"@ {
            let pr = since_walk_spec(tz, now, since, toks, i);
            recur_shape_spec(g, tz, now, pr.0, toks, clamp_index(toks, i + 1, pr.1))
        } else if tok == "alle"@ {
            let g2 = times_shape(g, toks, i + 1);
            recur_shape_spec(
                g2,
                tz,
                now,
                since,
                toks,
                clamp_index(toks, i + 1, collect_times_spec(toks, i + 1).1),
            )
        } else {
            recur_shape_spec(g, tz, now, since, toks, i + 1)
        }
    } else {
        g
    }
}

/// The shape a fresh recurrence walk starts from: everything set within the
/// calendar ranges, narrowed at once to the clock reading of `since`.
pub open spec fn start_shape(tz: Seq<char>, since: int) -> GridShape {
    let l = localtime::reading_of(tz, since);
    GridShape {
        minutes: Set::new(|b: int| 0 <= b < 64 && b == (l % 86400) % 3600 / 60),
        hours: Set::new(|b: int| 0 <= b < 64 && b == (l % 86400) / 3600),
        weeks_of_month: Set::new(|b: int| 0 <= b < 5),
        days_of_month: Set::new(|b: int| 0 <= b < 31),
        days_of_week: Set::new(|b: int| 0 <= b < 7),
        months_of_year: Set::new(|b: int| 0 <= b < 12),
        cadence: 1,
    }
}

/// Whether a built grid's bitmaps and cadence read exactly as a shape says.
pub open spec fn grid_shaped(g: &crate::grid::ScheduleGrid, sh: GridShape) -> bool {
    &&& forall|i: int| g.spec_minutes().spec_get(i) == sh.minutes.contains(i)
    &&& forall|i: int| g.spec_hours().spec_get(i) == sh.hours.contains(i)
    &&& forall|i: int| g.spec_weeks_of_month().spec_get(i) == sh.weeks_of_month.contains(i)
    &&& forall|i: int| g.spec_days_of_month().spec_get(i) == sh.days_of_month.contains(i)
    &&& forall|i: int| g.spec_days_of_week().spec_get(i) == sh.days_of_week.contains(i)
    &&& forall|i: int| g.spec_months_of_year().spec_get(i) == sh.months_of_year.contains(i)
    &&& g.spec_year_cadence() == sh.cadence
}

/// The one shape a builder reads as.
pub open spec fn builder_shape(b: &ScheduleGridBuilder) -> GridShape {
    GridShape {
        minutes: Set::new(|i: int| b.spec_minutes().spec_get(i)),
        hours: Set::new(|i: int| b.spec_hours().spec_get(i)),
        weeks_of_month: Set::new(|i: int| b.spec_weeks_of_month().spec_get(i)),
        days_of_month: Set::new(|i: int| b.spec_days_of_month().spec_get(i)),
        days_of_week: Set::new(|i: int| b.spec_days_of_week().spec_get(i)),
        months_of_year: Set::new(|i: int| b.spec_months_of_year().spec_get(i)),
        cadence: b.spec_year_cadence(),
    }
}

/// A builder reads as exactly one shape.
pub proof fn lemma_shape_unique(b: &ScheduleGridBuilder, g1: GridShape, g2: GridShape)
    requires
        builder_shaped(b, g1),
        builder_shaped(b, g2),
    ensures
        g1 == g2,
{
    assert(g1.minutes =~= g2.minutes);
    assert(g1.hours =~= g2.hours);
    assert(g1.weeks_of_month =~= g2.weeks_of_month);
    assert(g1.days_of_month =~= g2.days_of_month);
    assert(g1.days_of_week =~= g2.days_of_week);
    assert(g1.months_of_year =~= g2.months_of_year);
}

/// One `ogni ...` clause: ordinals and weekdays, a month list, a `D/M` pair
/// or bare numbers, until the next keyword.
fn set_schedule(builder: &mut ScheduleGridBuilder, toks: &Vec<&str>, i: &mut usize)
    requires
        old(builder).wf(),
        *old(i) <= toks@.len(),
    ensures
        final(builder).wf(),
        *old(i) <= *final(i) <= toks@.len(),
        *final(i) as int == set_schedule_end(toks@, *old(i) as int),
        builder_shaped(
            &*final(builder),
            apply_set_schedule(builder_shape(&*old(builder)), toks@, *old(i) as int),
        ),
{
    let ghost g0 = builder_shape(&*builder);
    let ghost mut gsh = g0;
    loop
        invariant_except_break
            set_schedule_end(toks@, *i as int) == set_schedule_end(toks@, *old(i) as int),
            apply_set_schedule(gsh, toks@, *i as int) == apply_set_schedule(
                g0,
                toks@,
                *old(i) as int,
            ),
        invariant
            builder.wf(),
            *old(i) <= (*i) <= toks@.len(),
            builder_shaped(&*builder, gsh),
        ensures
            builder.wf(),
            *old(i) <= (*i) <= toks@.len(),
            *i as int == set_schedule_end(toks@, *old(i) as int),
            builder_shaped(&*builder, gsh),
            gsh == apply_set_schedule(g0, toks@, *old(i) as int),
        decreases (toks@.len() - *i),
    {
        if *i >= toks.len() {
            break;
        }
        let tok = toks[*i];
        if tok_eq(tok, "fino") || tok_eq(tok, "al") || tok_eq(tok, "all") || tok_eq(tok, "a")
            || tok_eq(tok, "ad") || tok_eq(tok, "dal") || tok_eq(tok, "da") || tok_eq(tok, "dall")
            || tok_eq(tok, "alle") || tok_eq(tok, "ogni") {
            break;
        }
        let before = *i;
        if position_name(tok).is_some() || weekday_name(tok).is_some() {
            set_weekday_schedule(builder, toks, i);
            proof {
                assert(*i as int == collect_weekdays_spec(
                    toks@,
                    collect_positions_spec(toks@, before as int).1,
                ).1);
                gsh = weekday_shape(gsh, toks@, before as int);
            }
        } else if tok_eq(tok, "di") {
            *i = *i + 1;
        } else if month_name(tok).is_some() {
            set_month_schedule(builder, toks, i);
            proof {
                assert(*i as int == collect_months_spec(toks@, before as int).1);
                gsh = month_shape(gsh, toks@, before as int);
            }
        } else if has_date_separator(tok) {
            set_date_schedule(builder, toks, i);
            proof {
                gsh = date_shape(gsh, toks@, before as int);
            }
        } else if parse_num(tok).is_some() {
            set_numeric_schedule(builder, toks, i);
            proof {
                gsh = apply_numeric_clause(gsh, toks@, before as int);
            }
            proof {
                let jn = collect_numbers_spec(toks@, before as int).1;
                if jn >= toks@.len() {
                    assert(*i as int == jn);
                } else if toks@[jn]@ == "anni"@ {
                    assert(*i as int == jn + 1);
                } else if toks@[jn]@ == "del"@ {
                    assert(*i as int == if jn + 1 < toks@.len() && toks@[jn + 1]@ == "mese"@ {
                        jn + 2
                    } else {
                        jn + 1
                    });
                } else if toks@[jn]@ == "di"@ {
                    assert(*i as int == collect_months_spec(toks@, jn + 1).1);
                } else {
                    assert(*i as int == jn);
                }
                assert(*i as int == numeric_clause_end(toks@, before as int));
            }
        } else {
            *i = *i + 1;
        }
        if *i == before {
            *i = *i + 1;
        }
        proof {
            let ih = before as int;
            let tokv = toks@[ih]@;
            let step: int = if spec_position_name(tokv) is Some || spec_weekday_name(tokv)
                is Some {
                collect_weekdays_spec(toks@, collect_positions_spec(toks@, ih).1).1
            } else if tokv == "di"@ {
                ih + 1
            } else if spec_month_name(tokv) is Some {
                collect_months_spec(toks@, ih).1
            } else if exists|j: int| 0 <= j < tokv.len() && is_date_separator(#[trigger] tokv[j]) {
                ih + 1
            } else if all_digits(tokv) && tokv.len() <= 9 {
                numeric_clause_end(toks@, ih)
            } else {
                ih + 1
            };
            assert(*i as int == clamp_index(
                toks@,
                ih + 1,
                if step < ih + 1 {
                    ih + 1
                } else {
                    step
                },
            ));
        }
    }
}

/// Builds a recurrent schedule: a grid narrowed clause by clause, a lower
/// bound, and possibly an upper bound.
fn build_recurrent(z: &Zone, now: i64, toks: &Vec<&str>, i: &mut usize) -> (r: Option<Schedule>)
    requires
        civil::valid_instant(now as int),
        *old(i) <= toks@.len(),
    ensures
        match r {
            Some(s) => s.wf() && (s matches Schedule::Recurrent { .. } || s matches Schedule::RecurrentUntil { .. }),
            None => true,
        },
        ({
            let rb0 = recur_bounds_spec(z@, now as int, now as int, None, toks@, *old(i) as int);
            r is Some <==> civil::date_of_day(localtime::reading_of(z@, rb0.0) / 86400).0 <= 9999
        }),
        ({
            let rb = recur_bounds_spec(z@, now as int, now as int, None, toks@, *old(i) as int);
            let anchor = civil::date_of_day(localtime::reading_of(z@, rb.0) / 86400).0;
            let sh = recur_shape_spec(
                start_shape(z@, now as int),
                z@,
                now as int,
                now as int,
                toks@,
                *old(i) as int,
            );
            match r {
                Some(s) => match s {
                    Schedule::Recurrent { since, schedule } => since as int == rb.0 && rb.1
                        is None && schedule.spec_year_start() == anchor && grid_shaped(
                        &schedule,
                        sh,
                    ),
                    Schedule::RecurrentUntil { since, until, schedule } => since as int == rb.0
                        && rb.1 == Some(until as int) && schedule.spec_year_start() == anchor
                        && grid_shaped(&schedule, sh),
                    _ => false,
                },
                None => true,
            }
        }),
{
    let mut since = now;
    let mut until: Option<i64> = None;
    let mut builder = ScheduleGridBuilder::new(z.duplicate());
    let v = localtime::local_view(z, since);
    proof {
        localtime::lemma_reading_day(z@, now as int, &v);
    }
    let mut start_times: Vec<TimeOfDay> = Vec::new();
    start_times.push(TimeOfDay { hour: v.hour as u8, minute: v.minute as u8, second: v.second as u8 });
    builder.with_times(start_times);
    let ghost sh0 = start_shape(z@, now as int);
    let ghost mut gsh = sh0;
    proof {
        assert forall|b: int|
            builder.spec_hours().spec_get(b) == gsh.hours.contains(b) by {
            if exists|j: int| 0 <= j < start_times@.len() && #[trigger] start_times@[j].hour as int
                == b {
                let j = choose|j: int|
                    0 <= j < start_times@.len() && #[trigger] start_times@[j].hour as int == b;
                assert(j == 0);
            }
            if gsh.hours.contains(b) {
                assert(start_times@[0].hour as int == b);
            }
        }
        assert forall|b: int|
            builder.spec_minutes().spec_get(b) == gsh.minutes.contains(b) by {
            if exists|j: int|
                0 <= j < start_times@.len() && #[trigger] start_times@[j].minute as int == b {
                let j = choose|j: int|
                    0 <= j < start_times@.len() && #[trigger] start_times@[j].minute as int == b;
                assert(j == 0);
            }
            if gsh.minutes.contains(b) {
                assert(start_times@[0].minute as int == b);
            }
        }
        assert(builder_shaped(&builder, gsh));
    }
    while *i < toks.len()
        invariant
            builder.wf(),
            civil::valid_instant(since as int),
            civil::valid_instant(now as int),
            (*i) <= toks@.len(),
            until matches Some(u) ==> civil::valid_instant(u as int),
            builder_shaped(&builder, gsh),
            recur_shape_spec(gsh, z@, now as int, since as int, toks@, *i as int)
                == recur_shape_spec(sh0, z@, now as int, now as int, toks@, *old(i) as int),
            recur_bounds_spec(
                z@,
                now as int,
                since as int,
                match until {
                    Some(u) => Some(u as int),
                    None => None,
                },
                toks@,
                *i as int,
            ) == recur_bounds_spec(z@, now as int, now as int, None, toks@, *old(i) as int),
        decreases (toks@.len() - *i),
    {
        let tok = toks[*i];
        let before = *i;
        if tok_eq(tok, "ogni") {
            *i = *i + 1;
            let ghost bpre = builder;
            set_schedule(&mut builder, toks, i);
            proof {
                lemma_shape_unique(&bpre, builder_shape(&bpre), gsh);
                gsh = apply_set_schedule(gsh, toks@, before as int + 1);
            }
        } else if tok_eq(tok, "al") || tok_eq(tok, "all") || tok_eq(tok, "allo") || tok_eq(
            tok,
            "a",
        ) || tok_eq(tok, "ad") {
            set_until(z, &mut until, since, toks, i);
            if *i == before {
                *i = *i + 1;
            }
        } else if tok_eq(tok, "dal") || tok_eq(tok, "da") || tok_eq(tok, "dall") {
            set_since(z, &mut since, now, toks, i);
            if *i == before {
                *i = *i + 1;
            }
        } else if tok_eq(tok, "alle") {
            *i = *i + 1;
            set_time_schedule(z, &mut builder, toks, i);
            proof {
                gsh = times_shape(gsh, toks@, before as int + 1);
            }
        } else {
            *i = *i + 1;
        }
    }
    let vy = localtime::local_view(z, since);
    proof {
        localtime::lemma_reading_day(z@, since as int, &vy);
    }
    if vy.year > 9999 {
        return None;
    }
    builder.with_year(vy.year as u32);
    let grid = builder.build();
    match until {
        None => Some(Schedule::Recurrent { since, schedule: grid }),
        Some(u) => Some(Schedule::RecurrentUntil { since, until: u, schedule: grid }),
    }
}

/// Parses a tokenized reminder request into a schedule, reading times in the
/// Rome zone. The first token is the command word; the second decides the
/// branch: a weekday or a date/time keyword starts a single firing, a
/// recurrence keyword starts a grid, and anything else is not a schedule.
pub fn try_parse(tokens: Vec<&str>, now: i64) -> (r: Option<Schedule>)
    requires
        civil::valid_instant(now as int),
    ensures
        match r {
            Some(s) => s.wf(),
            None => true,
        },
        r is Some ==> tokens@.len() >= 2,
        r matches Some(s) ==> ((s matches Schedule::Once { .. }) ==> spec_once_leading(
            tokens@[1]@,
        )),
        r matches Some(s) ==> ((s matches Schedule::Recurrent { .. } || s
            matches Schedule::RecurrentUntil { .. }) ==> spec_recurrent_leading(tokens@[1]@)),
        ({
            match r {
                Some(s) => match s {
                    Schedule::Once { when } => when as int == build_once_spec(
                        "Europe/Rome"@,
                        now as int,
                        now as int,
                        tokens@,
                        1,
                    ),
                    _ => true,
                },
                None => true,
            }
        }),
        ({
            let rb = recur_bounds_spec(
                "Europe/Rome"@,
                now as int,
                now as int,
                None,
                tokens@,
                1,
            );
            let anchor = civil::date_of_day(
                localtime::reading_of("Europe/Rome"@, rb.0) / 86400,
            ).0;
            let sh = recur_shape_spec(
                start_shape("Europe/Rome"@, now as int),
                "Europe/Rome"@,
                now as int,
                now as int,
                tokens@,
                1,
            );
            match r {
                Some(s) => match s {
                    Schedule::Recurrent { since, schedule } => since as int == rb.0 && rb.1
                        is None && schedule.spec_year_start() == anchor && grid_shaped(
                        &schedule,
                        sh,
                    ),
                    Schedule::RecurrentUntil { since, until, schedule } => since as int == rb.0
                        && rb.1 == Some(until as int) && schedule.spec_year_start() == anchor
                        && grid_shaped(&schedule, sh),
                    _ => true,
                },
                None => true,
            }
        }),
        tokens@.len() >= 2 && !spec_once_leading(tokens@[1]@) && !spec_recurrent_leading(
            tokens@[1]@,
        ) ==> r is None,
        tokens@.len() < 2 ==> r is None,
        tokens@.len() >= 2 && spec_once_leading(tokens@[1]@) ==> r is Some,
        tokens@.len() >= 2 && spec_recurrent_leading(tokens@[1]@) && !spec_once_leading(
            tokens@[1]@,
        ) ==> (r is Some <==> ({
            let rb = recur_bounds_spec(
                "Europe/Rome"@,
                now as int,
                now as int,
                None,
                tokens@,
                1,
            );
            civil::date_of_day(localtime::reading_of("Europe/Rome"@, rb.0) / 86400).0 <= 9999
        })),
{
    let z = Zone::rome();
    if tokens.len() < 2 {
        return None;
    }
    let head = tokens[1];
    let mut i: usize = 1;
    if weekday_name(head).is_some() {
        let w = build_once(&z, now, &tokens, &mut i);
        Some(Schedule::Once { when: w })
    } else if tok_eq(head, "ogni") || tok_eq(head, "fino") || tok_eq(head, "dal") || tok_eq(
        head,
        "dall",
    ) || tok_eq(head, "da") {
        proof {
            reveal_strlit("ogni");
            reveal_strlit("fino");
            reveal_strlit("dal");
            reveal_strlit("dall");
            reveal_strlit("da");
            reveal_strlit("alle");
            reveal_strlit("a");
            reveal_strlit("il");
            reveal_strlit("lo");
            reveal_strlit("l");
            reveal_strlit("nel");
            reveal_strlit("ad");
            reveal_strlit("tra");
            assert("ogni"@[0] != "alle"@[0]);
            assert("fino"@[0] != "alle"@[0]);
            assert("dall"@[0] != "alle"@[0]);
            assert("dal"@[0] != "nel"@[0]);
            assert("dal"@[0] != "tra"@[0]);
            assert("da"@[0] != "il"@[0]);
            assert("da"@[0] != "lo"@[0]);
            assert("da"@[0] != "ad"@[0]);
            assert(!spec_once_leading(head@));
        }
        build_recurrent(&z, now, &tokens, &mut i)
    } else if tok_eq(head, "alle") || tok_eq(head, "a") || tok_eq(head, "il") || tok_eq(
        head,
        "lo",
    ) || tok_eq(head, "l") || tok_eq(head, "nel") || tok_eq(head, "ad") || tok_eq(head, "tra") {
        let w = build_once(&z, now, &tokens, &mut i);
        Some(Schedule::Once { when: w })
    } else {
        None
    }
}

} // verus!
