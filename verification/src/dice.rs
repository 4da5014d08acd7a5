//! Dice notation for the `roll` command (`1d20 + 2d6 - 3`): parsing the
//! space-separated entries, tallying a roll, and the reply text; plus the
//! coin flip.

use vstd::prelude::*;
use rand::RngExt;
use crate::text::{
    append_chars, append_str, copy_range, chars_of, decimal, lemma_decimal_digits, law_decimal_parses_back,
    parse_i64, parse_i64_spec, parse_u64, parse_u64_spec, push_decimal, string_from_chars,
};

verus! {

/// One space-separated entry of a dice notation.
pub enum NotationEntry {
    /// `+`: following numbers and rolls are added.
    Plus,
    /// `-`: following numbers and rolls are subtracted.
    Minus,
    /// A constant.
    Number(i64),
    /// `<count>d<sides>`, both at least one.
    Roll { count: u64, sides: u64 },
}

/// Why a dice notation was refused.
pub enum RollError {
    /// An entry held a space.
    Space,
    /// The count before `d` is not a positive integer.
    InvalidCount,
    /// The sides after `d` are not a positive integer.
    InvalidSides,
    /// An entry is neither a sign, a roll nor an integer.
    InvalidNumber,
}

impl RollError {
    /// The message shown for this error.
    pub fn message(&self) -> (m: String)
        ensures
            m@ == roll_error_text(*self),
    {
        match self {
            RollError::Space => crate::text::owned("Spaces should be filtered out by the time the string is parsed"),
            RollError::InvalidCount => crate::text::owned("Invalid count"),
            RollError::InvalidSides => crate::text::owned("Invalid sides"),
            RollError::InvalidNumber => crate::text::owned("Invalid number"),
        }
    }
}

/// The message of each roll error.
pub open spec fn roll_error_text(e: RollError) -> Seq<char> {
    match e {
        RollError::Space => "Spaces should be filtered out by the time the string is parsed"@,
        RollError::InvalidCount => "Invalid count"@,
        RollError::InvalidSides => "Invalid sides"@,
        RollError::InvalidNumber => "Invalid number"@,
    }
}

/// `s` split at every `c` (`str::split` with a char): `n` separators give
/// `n + 1` pieces, empty ones included.
pub open spec fn split_on(s: Seq<char>, c: char) -> Seq<Seq<char>>
    decreases s.len(),
{
    if s.len() == 0 {
        seq![Seq::<char>::empty()]
    } else {
        let p = split_on(s.drop_last(), c);
        if s.last() == c {
            p.push(Seq::<char>::empty())
        } else {
            p.update(p.len() - 1, p.last().push(s.last()))
        }
    }
}

proof fn lemma_split_nonempty(s: Seq<char>, c: char)
    ensures
        split_on(s, c).len() >= 1,
    decreases s.len(),
{
    if s.len() > 0 {
        lemma_split_nonempty(s.drop_last(), c);
    }
}

/// Index of the first `c` in `s`, if any.
pub open spec fn first_at(s: Seq<char>, c: char, k: int) -> bool {
    0 <= k < s.len() && s[k] == c && forall|j: int| 0 <= j < k ==> s[j] != c
}

/// The entry a piece of notation parses to.
pub open spec fn parse_entry_spec(s: Seq<char>) -> Result<NotationEntry, RollError> {
    if s.contains(' ') {
        Err(RollError::Space)
    } else if s.contains('d') {
        let k = choose|k: int| first_at(s, 'd', k);
        match parse_u64_spec(s.subrange(0, k)) {
            Some(count) if count > 0 => match parse_u64_spec(s.subrange(k + 1, s.len() as int)) {
                Some(sides) if sides > 0 => Ok(NotationEntry::Roll { count, sides }),
                _ => Err(RollError::InvalidSides),
            },
            _ => Err(RollError::InvalidCount),
        }
    } else if s == seq!['+'] {
        Ok(NotationEntry::Plus)
    } else if s == seq!['-'] {
        Ok(NotationEntry::Minus)
    } else {
        match parse_i64_spec(s) {
            Some(n) => Ok(NotationEntry::Number(n)),
            None => Err(RollError::InvalidNumber),
        }
    }
}

/// The entries a whole notation parses to: every piece must parse, and
/// the first piece that does not gives the error.
pub open spec fn parse_pieces_spec(ps: Seq<Seq<char>>) -> Result<Seq<NotationEntry>, RollError>
    decreases ps.len(),
{
    if ps.len() == 0 {
        Ok(Seq::empty())
    } else {
        match parse_pieces_spec(ps.drop_last()) {
            Err(e) => Err(e),
            Ok(es) => match parse_entry_spec(ps.last()) {
                Err(e) => Err(e),
                Ok(x) => Ok(es.push(x)),
            },
        }
    }
}

/// The entries of a notation (its space-separated pieces).
pub open spec fn parse_notation_spec(s: Seq<char>) -> Result<Seq<NotationEntry>, RollError> {
    parse_pieces_spec(split_on(s, ' '))
}

fn index_of(v: &Vec<char>, c: char) -> (r: Option<usize>)
    ensures
        match r {
            Some(k) => first_at(v@, c, k as int),
            None => !v@.contains(c),
        },
{
    let mut i: usize = 0;
    while i < v.len()
        invariant
            i <= v.len(),
            forall|j: int| 0 <= j < i ==> v@[j] != c,
        decreases v.len() - i,
    {
        if v[i] == c {
            return Some(i);
        }
        i += 1;
    }
    None
}

proof fn lemma_first_unique(s: Seq<char>, c: char, k: int, m: int)
    requires
        first_at(s, c, k),
        first_at(s, c, m),
    ensures
        k == m,
{
    if k < m {
        assert(s[k] != c);
    } else if m < k {
        assert(s[m] != c);
    }
}

/// Parses one piece of notation.
pub fn parse_entry(s: &Vec<char>) -> (r: Result<NotationEntry, RollError>)
    ensures
        r == parse_entry_spec(s@),
{
    if index_of(s, ' ').is_some() {
        return Err(RollError::Space);
    }
    match index_of(s, 'd') {
        Some(k) => {
            proof {
                let k2 = choose|k2: int| first_at(s@, 'd', k2);
                lemma_first_unique(s@, 'd', k as int, k2);
            }
            assert(k < s.len());
            let before = copy_range(s, 0, k);
            let after = copy_range(s, k + 1, s.len());
            match parse_u64(&before) {
                Some(count) if count > 0 => match parse_u64(&after) {
                    Some(sides) if sides > 0 => Ok(NotationEntry::Roll { count, sides }),
                    _ => Err(RollError::InvalidSides),
                },
                _ => Err(RollError::InvalidCount),
            }
        },
        None => {
            if s.len() == 1 && s[0] == '+' {
                assert(s@ =~= seq!['+']);
                Ok(NotationEntry::Plus)
            } else if s.len() == 1 && s[0] == '-' {
                assert(s@ =~= seq!['-']);
                Ok(NotationEntry::Minus)
            } else {
                assert(s@ != seq!['+'] && s@ != seq!['-']) by {
                    if s@.len() == 1 {
                        assert(s@[0] == s@[0]);
                    }
                }
                match parse_i64(s) {
                    Some(n) => Ok(NotationEntry::Number(n)),
                    None => Err(RollError::InvalidNumber),
                }
            }
        },
    }
}

/// The character views of the pieces.
pub open spec fn piece_views(v: Seq<Vec<char>>) -> Seq<Seq<char>> {
    v.map_values(|p: Vec<char>| p@)
}

/// Splits `s` at every `c`, as `str::split` does.
pub fn split_chars(s: &Vec<char>, c: char) -> (r: Vec<Vec<char>>)
    ensures
        piece_views(r@) == split_on(s@, c),
{
    let mut done: Vec<Vec<char>> = Vec::new();
    let mut cur: Vec<char> = Vec::new();
    let mut i: usize = 0;
    assert(s@.take(0) =~= Seq::<char>::empty());
    assert(piece_views(done@).push(cur@) =~= split_on(s@.take(0), c));
    while i < s.len()
        invariant
            i <= s.len(),
            piece_views(done@).push(cur@) == split_on(s@.take(i as int), c),
        decreases s.len() - i,
    {
        let ghost prev = split_on(s@.take(i as int), c);
        proof {
            assert(s@.take(i + 1).drop_last() =~= s@.take(i as int));
            assert(s@.take(i + 1).last() == s@[i as int]);
            lemma_split_nonempty(s@.take(i as int), c);
        }
        let ch = s[i];
        if ch == c {
            let ghost dv = done@;
            let ghost cv = cur@;
            let finished = cur;
            done.push(finished);
            cur = Vec::new();
            proof {
                assert(piece_views(done@) =~= piece_views(dv).push(cv));
                assert(piece_views(done@).push(cur@) =~= prev.push(Seq::<char>::empty()));
            }
        } else {
            cur.push(ch);
            proof {
                assert(piece_views(done@).push(cur@) =~= prev.update(prev.len() - 1, prev.last().push(ch)));
            }
        }
        i += 1;
    }
    assert(s@.take(s@.len() as int) =~= s@);
    let ghost dv = done@;
    let ghost cv = cur@;
    done.push(cur);
    assert(piece_views(done@) =~= piece_views(dv).push(cv));
    done
}

/// Parses a whole notation: its space-separated entries.
pub fn parse_notation(s: &str) -> (r: Result<Vec<NotationEntry>, RollError>)
    ensures
        match r {
            Ok(v) => parse_notation_spec(s@) == Ok::<Seq<NotationEntry>, RollError>(v@),
            Err(e) => parse_notation_spec(s@) == Err::<Seq<NotationEntry>, RollError>(e),
        },
{
    let chars = chars_of(s);
    let pieces = split_chars(&chars, ' ');
    let ghost ps = piece_views(pieces@);
    let mut out: Vec<NotationEntry> = Vec::new();
    let mut i: usize = 0;
    while i < pieces.len()
        invariant
            i <= pieces@.len(),
            ps == piece_views(pieces@),
            ps == split_on(s@, ' '),
            parse_pieces_spec(ps.take(i as int)) == Ok::<Seq<NotationEntry>, RollError>(out@),
        decreases pieces@.len() - i,
    {
        proof {
            assert(ps.take(i + 1).drop_last() =~= ps.take(i as int));
            assert(ps.take(i + 1).last() == pieces@[i as int]@);
        }
        match parse_entry(&pieces[i]) {
            Ok(x) => out.push(x),
            Err(e) => {
                proof { lemma_pieces_err_extends(ps, i as int + 1, e); }
                return Err(e);
            },
        }
        i += 1;
    }
    assert(ps.take(ps.len() as int) =~= ps);
    Ok(out)
}

proof fn lemma_pieces_err_extends(ps: Seq<Seq<char>>, k: int, e: RollError)
    requires
        0 <= k <= ps.len(),
        parse_pieces_spec(ps.take(k)) == Err::<Seq<NotationEntry>, RollError>(e),
    ensures
        parse_pieces_spec(ps) == Err::<Seq<NotationEntry>, RollError>(e),
    decreases ps.len() - k,
{
    if k < ps.len() {
        assert(ps.take(k + 1).drop_last() =~= ps.take(k));
        lemma_pieces_err_extends(ps, k + 1, e);
    } else {
        assert(ps.take(k) =~= ps);
    }
}


/// `n` in decimal, with a leading `-` when negative.
pub open spec fn signed_decimal(n: int) -> Seq<char> {
    if n < 0 {
        seq!['-'] + decimal((-n) as nat)
    } else {
        decimal(n as nat)
    }
}

/// The values separated by `", "`.
pub open spec fn joined(xs: Seq<i64>) -> Seq<char>
    decreases xs.len(),
{
    if xs.len() == 0 {
        Seq::empty()
    } else if xs.len() == 1 {
        signed_decimal(xs[0] as int)
    } else {
        joined(xs.drop_last()) + ", "@ + signed_decimal(xs.last() as int)
    }
}

/// The sum of the values.
pub open spec fn sum_of(xs: Seq<i64>) -> int
    decreases xs.len(),
{
    if xs.len() == 0 { 0 } else { sum_of(xs.drop_last()) + xs.last() }
}

/// The most an entry can move the total by.
pub open spec fn entry_bound(e: NotationEntry) -> int {
    match e {
        NotationEntry::Number(n) => if n < 0 { -n } else { n as int },
        NotationEntry::Roll { count, sides } => count * sides,
        _ => 0,
    }
}

/// The most a notation's total can reach in magnitude.
pub open spec fn notation_bound(es: Seq<NotationEntry>) -> int
    decreases es.len(),
{
    if es.len() == 0 { 0 } else { notation_bound(es.drop_last()) + entry_bound(es.last()) }
}

/// `rs[i]` holds the dice drawn for entry `i`: `count` values in
/// `1..=sides` for a roll, nothing for the other entries.
pub open spec fn valid_rolls(es: Seq<NotationEntry>, rs: Seq<Seq<i64>>) -> bool {
    &&& rs.len() == es.len()
    &&& forall|i: int| 0 <= i < es.len() ==> match #[trigger] es[i] {
        NotationEntry::Roll { count, sides } => rs[i].len() == count
            && forall|j: int| 0 <= j < rs[i].len() ==> 1 <= #[trigger] rs[i][j] <= sides,
        _ => rs[i].len() == 0,
    }
}

/// Running total, whether entries are currently added, and the echoed
/// notation, after tallying `es` with the dice `rs`.
pub open spec fn tally_spec(es: Seq<NotationEntry>, rs: Seq<Seq<i64>>) -> (int, bool, Seq<char>)
    decreases es.len(),
{
    if es.len() == 0 {
        (0, true, Seq::empty())
    } else {
        let (t, adding, text) = tally_spec(es.drop_last(), rs.drop_last());
        match es.last() {
            NotationEntry::Plus => (t, true, text + " + "@),
            NotationEntry::Minus => (t, false, text + " - "@),
            NotationEntry::Number(n) => (if adding { t + n } else { t - n }, adding, text + signed_decimal(n as int)),
            NotationEntry::Roll { count, sides } => {
                let dice = rs.last();
                (
                    if adding { t + sum_of(dice) } else { t - sum_of(dice) },
                    adding,
                    text + decimal(count as nat) + seq!['d'] + decimal(sides as nat) + " ("@ + joined(dice) + seq![')'],
                )
            },
        }
    }
}

/// The reply to a roll: `🎲 <notation echo> = **<total>**`.
pub open spec fn roll_message(es: Seq<NotationEntry>, rs: Seq<Seq<i64>>) -> Seq<char> {
    "\u{1F3B2} "@ + tally_spec(es, rs).2 + " = **"@ + signed_decimal(tally_spec(es, rs).0) + "**"@
}

/// A value that a 64-bit signed integer holds.
pub open spec fn in_i64(x: int) -> bool {
    i64::MIN <= x <= i64::MAX
}

/// The smallest and the largest running total after `es` over all dice
/// (each die between 1 and its sides), and whether entries are added.
pub open spec fn total_range(es: Seq<NotationEntry>) -> (int, int, bool)
    decreases es.len(),
{
    if es.len() == 0 {
        (0, 0, true)
    } else {
        let (lo, hi, adding) = total_range(es.drop_last());
        match es.last() {
            NotationEntry::Plus => (lo, hi, true),
            NotationEntry::Minus => (lo, hi, false),
            NotationEntry::Number(n) => if adding { (lo + n, hi + n, adding) } else { (lo - n, hi - n, adding) },
            NotationEntry::Roll { count, sides } => if adding {
                (lo + count, hi + count * sides, adding)
            } else {
                (lo - count * sides, hi - count, adding)
            },
        }
    }
}

/// Whatever the dice show, every running total and every partial sum of a
/// roll's dice stays within 64 bits: the tally never overflows.
pub open spec fn totals_fit(es: Seq<NotationEntry>) -> bool
    decreases es.len(),
{
    if es.len() == 0 {
        true
    } else {
        &&& totals_fit(es.drop_last())
        &&& in_i64(total_range(es).0)
        &&& in_i64(total_range(es).1)
        &&& match es.last() {
            NotationEntry::Roll { count, sides } => count * sides <= i64::MAX,
            _ => true,
        }
    }
}

/// With the dice `rs`, every running total and every roll's sum stays
/// within 64 bits.
pub open spec fn outcome_fits(es: Seq<NotationEntry>, rs: Seq<Seq<i64>>) -> bool
    decreases es.len(),
{
    if es.len() == 0 {
        true
    } else {
        &&& outcome_fits(es.drop_last(), rs.drop_last())
        &&& in_i64(tally_spec(es, rs).0)
        &&& match es.last() {
            NotationEntry::Roll { .. } => sum_of(rs.last()) <= i64::MAX,
            _ => true,
        }
    }
}

/// Appends `n` in decimal (with `-` when negative).
pub fn push_signed(out: &mut Vec<char>, n: i64)
    ensures
        final(out)@ == old(out)@ + signed_decimal(n as int),
{
    if n < 0 {
        out.push('-');
        let m: u64 = (0i128 - (n as i128)) as u64;
        push_decimal(out, m);
        assert(final(out)@ =~= old(out)@ + signed_decimal(n as int));
    } else {
        push_decimal(out, n as u64);
    }
}

/// Whatever the dice show, the total stays within the notation's bound.
pub proof fn law_total_within_bound(es: Seq<NotationEntry>, rs: Seq<Seq<i64>>)
    requires
        valid_rolls(es, rs),
    ensures
        -notation_bound(es) <= tally_spec(es, rs).0 <= notation_bound(es),
        notation_bound(es) >= 0,
    decreases es.len(),
{
    if es.len() > 0 {
        let d = es.drop_last();
        let rd = rs.drop_last();
        assert(valid_rolls(d, rd)) by {
            assert forall|i: int| 0 <= i < d.len() implies match #[trigger] d[i] {
                NotationEntry::Roll { count, sides } => rd[i].len() == count
                    && forall|j: int| 0 <= j < rd[i].len() ==> 1 <= #[trigger] rd[i][j] <= sides,
                _ => rd[i].len() == 0,
            } by {
                assert(d[i] == es[i]);
                assert(rd[i] == rs[i]);
            }
        }
        law_total_within_bound(d, rd);
        let last = es.last();
        assert(es[es.len() - 1] == last);
        match last {
            NotationEntry::Roll { count, sides } => {
                lemma_sum_bound(rs.last(), sides as int);
                assert(rs.last().len() * sides == count * sides);
            },
            _ => {},
        }
    }
}

proof fn lemma_sum_bound(xs: Seq<i64>, s: int)
    requires
        forall|j: int| 0 <= j < xs.len() ==> 1 <= #[trigger] xs[j] <= s,
    ensures
        xs.len() <= sum_of(xs) <= xs.len() * s,
    decreases xs.len(),
{
    if xs.len() > 0 {
        assert forall|j: int| 0 <= j < xs.drop_last().len() implies 1 <= #[trigger] xs.drop_last()[j] <= s by {
            assert(xs.drop_last()[j] == xs[j]);
        }
        lemma_sum_bound(xs.drop_last(), s);
        assert(xs[xs.len() - 1] <= s);
        assert((xs.len() - 1) * s + s == xs.len() * s) by (nonlinear_arith);
    }
}

/// Tallies a parsed notation with the dice already drawn: the total
/// (entries after `-` subtracted, after `+` added, adding at the start) and
/// the reply text.
pub fn tally(entries: &Vec<NotationEntry>, rolls: &Vec<Vec<i64>>) -> (r: (i64, String))
    requires
        valid_rolls(entries@, rolls@.map_values(|v: Vec<i64>| v@)),
        outcome_fits(entries@, rolls@.map_values(|v: Vec<i64>| v@)),
    ensures
        r.0 == tally_spec(entries@, rolls@.map_values(|v: Vec<i64>| v@)).0,
        r.1@ == roll_message(entries@, rolls@.map_values(|v: Vec<i64>| v@)),
{
    let ghost rs = rolls@.map_values(|v: Vec<i64>| v@);
    let mut total: i64 = 0;
    let mut adding = true;
    let mut text: Vec<char> = Vec::new();
    let mut i: usize = 0;
    while i < entries.len()
        invariant
            i <= entries@.len(),
            rs == rolls@.map_values(|v: Vec<i64>| v@),
            valid_rolls(entries@, rs),
            outcome_fits(entries@, rs),
            tally_spec(entries@.take(i as int), rs.take(i as int)) == (total as int, adding, text@),
        decreases entries@.len() - i,
    {
        let ghost es_i = entries@.take(i as int);
        let ghost rs_i = rs.take(i as int);
        proof {
            assert(entries@.take(i + 1).drop_last() =~= es_i);
            assert(rs.take(i + 1).drop_last() =~= rs_i);
            assert(entries@.take(i + 1).last() == entries@[i as int]);
            assert(rs.take(i + 1).last() == rs[i as int]);
            lemma_outcome_prefix(entries@, rs, i as int + 1);
        }
        match &entries[i] {
            NotationEntry::Plus => {
                adding = true;
                append_str(&mut text, " + ");
            },
            NotationEntry::Minus => {
                adding = false;
                append_str(&mut text, " - ");
            },
            NotationEntry::Number(n) => {
                let n = *n;
                if adding {
                    total = total + n;
                } else {
                    total = total - n;
                }
                push_signed(&mut text, n);
            },
            NotationEntry::Roll { count, sides } => {
                let dice = &rolls[i];
                assert(dice@ == rs[i as int]);
                let mut sum: i64 = 0;
                let mut j: usize = 0;
                while j < dice.len()
                    invariant
                        j <= dice@.len(),
                        forall|k: int| 0 <= k < dice@.len() ==> 1 <= #[trigger] dice@[k] <= *sides,
                        dice@.len() == *count,
                        sum_of(dice@) <= i64::MAX,
                        sum == sum_of(dice@.take(j as int)),
                    decreases dice@.len() - j,
                {
                    proof {
                        assert(dice@.take(j + 1).drop_last() =~= dice@.take(j as int));
                        lemma_sum_prefix(dice@, j as int + 1);
                        lemma_sum_bound(dice@.take(j as int), *sides as int);
                    }
                    sum = sum + dice[j];
                    j += 1;
                }
                assert(dice@.take(dice@.len() as int) =~= dice@);
                if adding {
                    total = total + sum;
                } else {
                    total = total - sum;
                }
                push_decimal(&mut text, *count);
                text.push('d');
                push_decimal(&mut text, *sides);
                append_str(&mut text, " (");
                let mut k: usize = 0;
                let ghost before = text@;
                while k < dice.len()
                    invariant
                        k <= dice@.len(),
                        text@ == before + joined(dice@.take(k as int)),
                    decreases dice@.len() - k,
                {
                    proof {
                        assert(dice@.take(k + 1).drop_last() =~= dice@.take(k as int));
                    }
                    if k > 0 {
                        append_str(&mut text, ", ");
                    } else {
                        assert(dice@.take(0) =~= Seq::<i64>::empty());
                    }
                    push_signed(&mut text, dice[k]);
                    k += 1;
                    assert(text@ =~= before + joined(dice@.take(k as int)));
                }
                assert(dice@.take(dice@.len() as int) =~= dice@);
                text.push(')');
            },
        }
        i += 1;
        proof {
            let t = tally_spec(entries@.take(i as int), rs.take(i as int));
            assert(t.2 =~= text@);
        }
    }
    assert(entries@.take(entries@.len() as int) =~= entries@);
    assert(rs.take(rs.len() as int) =~= rs);
    let mut msg: Vec<char> = Vec::new();
    append_str(&mut msg, "\u{1F3B2} ");
    append_chars(&mut msg, &text);
    append_str(&mut msg, " = **");
    push_signed(&mut msg, total);
    append_str(&mut msg, "**");
    (total, string_from_chars(&msg))
}

proof fn lemma_prefix_valid(es: Seq<NotationEntry>, rs: Seq<Seq<i64>>, k: int)
    requires
        valid_rolls(es, rs),
        0 <= k <= es.len(),
    ensures
        valid_rolls(es.take(k), rs.take(k)),
{
    let a = es.take(k);
    let b = rs.take(k);
    assert forall|i: int| 0 <= i < a.len() implies match #[trigger] a[i] {
        NotationEntry::Roll { count, sides } => b[i].len() == count
            && forall|j: int| 0 <= j < b[i].len() ==> 1 <= #[trigger] b[i][j] <= sides,
        _ => b[i].len() == 0,
    } by {
        assert(a[i] == es[i]);
        assert(b[i] == rs[i]);
    }
}


/// `rand::rng().random_range(1..=sides)`: a die in `1..=sides`. Only the
/// range is promised; the value comes from the thread RNG.
#[verifier::external_body]
fn random_die(sides: u64) -> (r: i64)
    requires
        1 <= sides <= i64::MAX,
    ensures
        1 <= r <= sides,
{
    rand::rng().random_range(1_i64..=sides as i64)
}

/// Draws `count` dice with `sides` sides each.
pub fn draw_dice(count: u64, sides: u64) -> (v: Vec<i64>)
    requires
        1 <= sides <= i64::MAX,
    ensures
        v@.len() == count,
        forall|j: int| 0 <= j < v@.len() ==> 1 <= #[trigger] v@[j] <= sides,
{
    let mut v: Vec<i64> = Vec::new();
    let mut n: u64 = 0;
    while n < count
        invariant
            n <= count,
            v@.len() == n,
            1 <= sides <= i64::MAX,
            forall|j: int| 0 <= j < v@.len() ==> 1 <= #[trigger] v@[j] <= sides,
        decreases count - n,
    {
        v.push(random_die(sides));
        n += 1;
    }
    v
}

/// Whether a notation's tally stays within 64 bits whatever the dice show
/// (see [`totals_fit`]).
pub fn notation_fits(entries: &Vec<NotationEntry>) -> (b: bool)
    ensures
        b == totals_fit(entries@),
{
    let mut lo: i128 = 0;
    let mut hi: i128 = 0;
    let mut adding = true;
    let mut i: usize = 0;
    while i < entries.len()
        invariant
            i <= entries@.len(),
            total_range(entries@.take(i as int)) == (lo as int, hi as int, adding),
            totals_fit(entries@.take(i as int)),
            in_i64(lo as int),
            in_i64(hi as int),
        decreases entries@.len() - i,
    {
        proof {
            assert(entries@.take(i + 1).drop_last() =~= entries@.take(i as int));
            assert(entries@.take(i + 1).last() == entries@[i as int]);
        }
        match &entries[i] {
            NotationEntry::Plus => {
                adding = true;
            },
            NotationEntry::Minus => {
                adding = false;
            },
            NotationEntry::Number(n) => {
                if adding {
                    lo = lo + *n as i128;
                    hi = hi + *n as i128;
                } else {
                    lo = lo - *n as i128;
                    hi = hi - *n as i128;
                }
            },
            NotationEntry::Roll { count, sides } => {
                proof {
                    assert((*count as int) * (*sides as int) <= u64::MAX * u64::MAX) by (nonlinear_arith)
                        requires *count <= u64::MAX, *sides <= u64::MAX;
                }
                let most: u128 = (*count as u128) * (*sides as u128);
                if most > i64::MAX as u128 {
                    proof { lemma_fits_prefix(entries@, i as int + 1); }
                    return false;
                }
                if adding {
                    lo = lo + *count as i128;
                    hi = hi + most as i128;
                } else {
                    lo = lo - most as i128;
                    hi = hi - *count as i128;
                }
            },
        }
        if lo < i64::MIN as i128 || lo > i64::MAX as i128 || hi < i64::MIN as i128 || hi > i64::MAX as i128 {
            proof { lemma_fits_prefix(entries@, i as int + 1); }
            return false;
        }
        i += 1;
    }
    assert(entries@.take(entries@.len() as int) =~= entries@);
    true
}

proof fn lemma_fits_prefix(es: Seq<NotationEntry>, k: int)
    requires
        0 <= k <= es.len(),
    ensures
        totals_fit(es) ==> totals_fit(es.take(k)),
    decreases es.len() - k,
{
    if k < es.len() {
        lemma_fits_prefix(es, k + 1);
        assert(es.take(k + 1).drop_last() =~= es.take(k));
    } else {
        assert(es.take(k) =~= es);
    }
}

proof fn lemma_outcome_prefix(es: Seq<NotationEntry>, rs: Seq<Seq<i64>>, k: int)
    requires
        0 <= k <= es.len(),
        rs.len() == es.len(),
    ensures
        outcome_fits(es, rs) ==> outcome_fits(es.take(k), rs.take(k)),
    decreases es.len() - k,
{
    if k < es.len() {
        lemma_outcome_prefix(es, rs, k + 1);
        assert(es.take(k + 1).drop_last() =~= es.take(k));
        assert(rs.take(k + 1).drop_last() =~= rs.take(k));
    } else {
        assert(es.take(k) =~= es);
        assert(rs.take(k) =~= rs);
    }
}

proof fn lemma_sum_prefix(xs: Seq<i64>, k: int)
    requires
        0 <= k <= xs.len(),
        forall|j: int| 0 <= j < xs.len() ==> 1 <= #[trigger] xs[j],
    ensures
        sum_of(xs.take(k)) <= sum_of(xs),
    decreases xs.len() - k,
{
    if k < xs.len() {
        lemma_sum_prefix(xs, k + 1);
        assert(xs.take(k + 1).drop_last() =~= xs.take(k));
    } else {
        assert(xs.take(k) =~= xs);
    }
}

/// The dice lie within the extremes: every running total lies between the
/// smallest and the largest that the notation allows.
proof fn lemma_total_in_range(es: Seq<NotationEntry>, rs: Seq<Seq<i64>>)
    requires
        valid_rolls(es, rs),
    ensures
        total_range(es).0 <= tally_spec(es, rs).0 <= total_range(es).1,
        total_range(es).2 == tally_spec(es, rs).1,
    decreases es.len(),
{
    if es.len() > 0 {
        let k = es.len() - 1;
        lemma_prefix_valid(es, rs, k);
        assert(es.take(k) =~= es.drop_last());
        assert(rs.take(k) =~= rs.drop_last());
        lemma_total_in_range(es.drop_last(), rs.drop_last());
        assert(es[k] == es.last());
        match es.last() {
            NotationEntry::Roll { count, sides } => {
                lemma_sum_bound(rs.last(), sides as int);
                assert(rs.last().len() * sides == count * sides);
            },
            _ => {},
        }
    }
}

/// A notation whose tally fits whatever the dice show fits with any dice.
proof fn lemma_fits_outcome(es: Seq<NotationEntry>, rs: Seq<Seq<i64>>)
    requires
        totals_fit(es),
        valid_rolls(es, rs),
    ensures
        outcome_fits(es, rs),
    decreases es.len(),
{
    if es.len() > 0 {
        let k = es.len() - 1;
        lemma_prefix_valid(es, rs, k);
        assert(es.take(k) =~= es.drop_last());
        assert(rs.take(k) =~= rs.drop_last());
        lemma_fits_outcome(es.drop_last(), rs.drop_last());
        lemma_total_in_range(es, rs);
        assert(es[k] == es.last());
        match es.last() {
            NotationEntry::Roll { count, sides } => {
                lemma_sum_bound(rs.last(), sides as int);
                assert(rs.last().len() * sides == count * sides);
            },
            _ => {},
        }
    }
}

/// Every roll has at least one die of at least one side.
pub open spec fn well_formed_entries(es: Seq<NotationEntry>) -> bool {
    forall|i: int| 0 <= i < es.len() ==> (#[trigger] es[i] matches NotationEntry::Roll { count, sides } ==> count >= 1 && sides >= 1)
}

/// What parses is well formed.
pub proof fn lemma_parsed_well_formed(ps: Seq<Seq<char>>)
    ensures
        parse_pieces_spec(ps) matches Ok(es) ==> well_formed_entries(es),
    decreases ps.len(),
{
    if ps.len() > 0 {
        lemma_parsed_well_formed(ps.drop_last());
        match parse_pieces_spec(ps.drop_last()) {
            Ok(es) => {
                match parse_entry_spec(ps.last()) {
                    Ok(x) => {
                        assert forall|i: int| 0 <= i < es.push(x).len() implies (#[trigger] es.push(x)[i] matches NotationEntry::Roll { count, sides } ==> count >= 1 && sides >= 1) by {
                            if i < es.len() {
                                assert(es.push(x)[i] == es[i]);
                            }
                        }
                    },
                    Err(_) => {},
                }
            },
            Err(_) => {},
        }
    }
}

/// Draws the dice for every roll of a notation.
pub fn draw_rolls(entries: &Vec<NotationEntry>) -> (rolls: Vec<Vec<i64>>)
    requires
        well_formed_entries(entries@),
        totals_fit(entries@),
    ensures
        valid_rolls(entries@, rolls@.map_values(|v: Vec<i64>| v@)),
{
    let mut rolls: Vec<Vec<i64>> = Vec::new();
    let mut i: usize = 0;
    while i < entries.len()
        invariant
            i <= entries@.len(),
            totals_fit(entries@),
            well_formed_entries(entries@),
            valid_rolls(entries@.take(i as int), rolls@.map_values(|v: Vec<i64>| v@)),
        decreases entries@.len() - i,
    {
        let ghost before = rolls@.map_values(|v: Vec<i64>| v@);
        proof {
            assert(entries@.take(i + 1).drop_last() =~= entries@.take(i as int));
            lemma_fits_prefix(entries@, i as int + 1);
        }
        let dice = match &entries[i] {
            NotationEntry::Roll { count, sides } => {
                proof {
                    assert(entries@.take(i + 1).last() == entries@[i as int]);
                    assert(*count >= 1 && *sides >= 1);
                    assert(*count * *sides <= i64::MAX);
                    assert(*sides <= *count * *sides) by (nonlinear_arith)
                        requires *count >= 1, *sides >= 1;
                }
                draw_dice(*count, *sides)
            },
            _ => Vec::new(),
        };
        rolls.push(dice);
        proof {
            let after = rolls@.map_values(|v: Vec<i64>| v@);
            let es = entries@.take(i + 1);
            assert forall|k: int| 0 <= k < es.len() implies match #[trigger] es[k] {
                NotationEntry::Roll { count, sides } => after[k].len() == count
                    && forall|j: int| 0 <= j < after[k].len() ==> 1 <= #[trigger] after[k][j] <= sides,
                _ => after[k].len() == 0,
            } by {
                if k < i {
                    assert(es[k] == entries@.take(i as int)[k]);
                    assert(after[k] == before[k]);
                } else {
                    assert(es[k] == entries@[i as int]);
                }
            }
        }
        i += 1;
    }
    assert(entries@.take(entries@.len() as int) =~= entries@);
    rolls
}

/// The notation rolled when none is given.
pub open spec fn notation_or_default(notation: Option<&str>) -> Seq<char> {
    match notation {
        Some(s) => s@,
        None => "1d20"@,
    }
}

/// The `roll` command: parses the notation (`1d20` when none is given),
/// draws the dice and builds the reply. Fails exactly when the notation
/// does not parse, with the error of its first bad entry.
pub fn roll_reply(notation: Option<&str>) -> (r: Result<String, RollError>)
    requires
        parse_notation_spec(notation_or_default(notation)) matches Ok(es) ==> totals_fit(es),
    ensures
        match parse_notation_spec(notation_or_default(notation)) {
            Ok(es) => r matches Ok(msg) && exists|rs: Seq<Seq<i64>>| valid_rolls(es, rs) && msg@ == roll_message(es, rs),
            Err(e) => r == Err::<String, RollError>(e),
        },
{
    let text: &str = match notation {
        Some(s) => s,
        None => "1d20",
    };
    let entries = match parse_notation(text) {
        Ok(v) => v,
        Err(e) => return Err(e),
    };
    proof { lemma_parsed_well_formed(split_on(notation_or_default(notation), ' ')); }
    let rolls = draw_rolls(&entries);
    proof { lemma_fits_outcome(entries@, rolls@.map_values(|v: Vec<i64>| v@)); }
    let (_, msg) = tally(&entries, &rolls);
    Ok(msg)
}

/// The notation `<n>d<s>` for a single roll.
pub open spec fn roll_text(n: u64, s: u64) -> Seq<char> {
    decimal(n as nat) + seq!['d'] + decimal(s as nat)
}

proof fn lemma_split_without(s: Seq<char>, c: char)
    requires
        !s.contains(c),
    ensures
        split_on(s, c) == seq![s],
    decreases s.len(),
{
    if s.len() == 0 {
        assert(s =~= Seq::<char>::empty());
        assert(seq![Seq::<char>::empty()] =~= seq![s]);
    } else {
        assert(!s.drop_last().contains(c)) by {
            if s.drop_last().contains(c) {
                let i = choose|i: int| 0 <= i < s.drop_last().len() && s.drop_last()[i] == c;
                assert(s[i] == c);
            }
        }
        lemma_split_without(s.drop_last(), c);
        assert(s[s.len() - 1] != c);
        assert(s.drop_last().push(s.last()) =~= s);
        assert(seq![s.drop_last()].update(0, s.drop_last().push(s.last())) =~= seq![s]);
    }
}

/// The text `<n>d<s>` parses to a single roll of `n` dice with `s` sides,
/// which the reply can tally exactly when `n * s` fits in 64 bits. Whatever
/// dice are drawn for it, there are `n` of them, each between 1 and `s`,
/// their sum lies between `n` and `n * s`, and the reply is
/// `🎲 <n>d<s> (<dice>) = **<sum>**`.
pub proof fn law_single_roll(n: u64, s: u64, rs: Seq<Seq<i64>>)
    requires
        1 <= n,
        1 <= s,
    ensures
        parse_notation_spec(roll_text(n, s)) == Ok::<Seq<NotationEntry>, RollError>(seq![NotationEntry::Roll { count: n, sides: s }]),
        totals_fit(seq![NotationEntry::Roll { count: n, sides: s }]) == (n * s <= i64::MAX),
        valid_rolls(seq![NotationEntry::Roll { count: n, sides: s }], rs) ==> {
            &&& rs.len() == 1
            &&& rs[0].len() == n
            &&& forall|j: int| 0 <= j < n ==> 1 <= #[trigger] rs[0][j] <= s
            &&& n <= sum_of(rs[0]) <= n * s
            &&& roll_message(seq![NotationEntry::Roll { count: n, sides: s }], rs)
                == "\u{1F3B2} "@ + roll_text(n, s) + " ("@ + joined(rs[0]) + ")"@ + " = **"@ + signed_decimal(sum_of(rs[0])) + "**"@
        },
{
    let es = seq![NotationEntry::Roll { count: n, sides: s }];
    let dn = decimal(n as nat);
    let ds = decimal(s as nat);
    let t = roll_text(n, s);
    lemma_decimal_digits(n as nat);
    lemma_decimal_digits(s as nat);
    law_decimal_parses_back(n);
    law_decimal_parses_back(s);
    let k = dn.len() as int;
    assert forall|i: int| 0 <= i < t.len() implies t[i] != ' ' && (t[i] == 'd' <==> i == k) by {
        if i < k {
            assert(t[i] == dn[i]);
            assert(crate::text::is_digit(dn[i]));
        } else if i > k {
            assert(t[i] == ds[i - k - 1]);
            assert(crate::text::is_digit(ds[i - k - 1]));
        }
    }
    assert(!t.contains(' '));
    assert(t[k] == 'd');
    assert(t.contains('d'));
    assert(first_at(t, 'd', k));
    let kk = choose|kk: int| first_at(t, 'd', kk);
    assert(kk == k) by {
        if kk < k {
            assert(t[kk] != 'd');
        } else if kk > k {
            assert(t[k] != 'd');
        }
    }
    assert(t.subrange(0, k) =~= dn);
    assert(t.subrange(k + 1, t.len() as int) =~= ds);
    assert(parse_entry_spec(t) == Ok::<NotationEntry, RollError>(NotationEntry::Roll { count: n, sides: s }));
    lemma_split_without(t, ' ');
    assert(seq![t].drop_last() =~= Seq::<Seq<char>>::empty());
    assert(parse_pieces_spec(Seq::<Seq<char>>::empty()) == Ok::<Seq<NotationEntry>, RollError>(Seq::empty()));
    assert(seq![t].last() == t);
    assert(Seq::<NotationEntry>::empty().push(NotationEntry::Roll { count: n, sides: s }) =~= es);
    assert(n <= n * s) by (nonlinear_arith)
        requires
            1 <= s,
            1 <= n,
    ;
    assert(es.drop_last() =~= Seq::<NotationEntry>::empty());
    assert(total_range(Seq::<NotationEntry>::empty()) == (0int, 0int, true));
    assert(totals_fit(Seq::<NotationEntry>::empty()));
    assert(es.last() == NotationEntry::Roll { count: n, sides: s });
    assert(total_range(es) == (n as int, n * s, true));
    if valid_rolls(es, rs) {
        assert(es[0] == NotationEntry::Roll { count: n, sides: s });
        lemma_sum_bound(rs[0], s as int);
        assert(rs.drop_last() =~= Seq::<Seq<i64>>::empty());
        assert(rs.last() == rs[0]);
        assert(tally_spec(Seq::<NotationEntry>::empty(), Seq::<Seq<i64>>::empty()) == (0int, true, Seq::<char>::empty()));
        reveal_strlit(")");
        let text = Seq::<char>::empty() + decimal(n as nat) + seq!['d'] + decimal(s as nat) + " ("@ + joined(rs[0]) + seq![')'];
        assert(tally_spec(es, rs) == (sum_of(rs[0]), true, text));
        assert(text =~= roll_text(n, s) + " ("@ + joined(rs[0]) + ")"@);
    }
}

/// With no notation given, one twenty-sided die is rolled.
pub proof fn law_default_roll_is_1d20()
    ensures
        notation_or_default(None) == roll_text(1, 20),
{
    reveal_strlit("1d20");
    assert(decimal(1) =~= seq!['1']);
    assert(decimal(2) =~= seq!['2']);
    assert(decimal(20) =~= seq!['2', '0']);
    assert(roll_text(1, 20) =~= "1d20"@);
}

/// The reply to a coin flip.
pub open spec fn coin_text(heads: bool) -> Seq<char> {
    if heads { "The coin landed on heads"@ } else { "The coin landed on tails"@ }
}

/// `rand::random_ratio(1, 2)`: a fair coin. Nothing is promised about the value.
#[verifier::external_body]
fn fair_coin() -> bool {
    rand::random_ratio(1, 2)
}

/// The reply for a given coin face.
pub fn coin_message(heads: bool) -> (r: String)
    ensures
        r@ == coin_text(heads),
{
    let face = if heads { "heads" } else { "tails" };
    let mut out: Vec<char> = Vec::new();
    append_str(&mut out, "The coin landed on ");
    append_str(&mut out, face);
    let r = string_from_chars(&out);
    proof {
        reveal_strlit("The coin landed on ");
        reveal_strlit("heads");
        reveal_strlit("tails");
        reveal_strlit("The coin landed on heads");
        reveal_strlit("The coin landed on tails");
    }
    assert(r@ =~= coin_text(heads));
    r
}

/// The `coin_flip` command: flips a fair coin and builds the reply.
pub fn coin_flip() -> (r: String)
    ensures
        r@ == coin_text(true) || r@ == coin_text(false),
{
    coin_message(fair_coin())
}

} // verus!
