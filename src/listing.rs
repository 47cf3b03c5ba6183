//! Parsing of a process listing: a header row of fixed shape, then rows
//! whose trailing free-text column is the command.

use vstd::prelude::*;
use vstd::string::*;
use crate::shell::{command_line, join_words, quote_all};
use crate::text::{is_ws, is_ws_char, run_len, scan_run, split_words, views, words, words_from,
    lemma_run_len_bound};

verus! {

/// Number of columns in the header row.
pub const HEADER_COLUMNS: usize = 11;

/// Number of fixed columns before a row's command text.
pub const LEADING_FIELDS: usize = 10;

/// Why a listing could not be read.
#[derive(Debug, Clone, Copy, PartialEq, Eq, Structural)]
pub enum ListingError {
    /// The command printed no line at all.
    NoOutput,
    /// The first line is not the expected header.
    BadHeader,
    /// A data row does not have the leading fields followed by the command.
    BadRow,
}

/// The name of the last header column.
pub open spec fn command_column() -> Seq<char> {
    seq!['C', 'O', 'M', 'M', 'A', 'N', 'D']
}

/// Whether a header's columns have the expected shape.
pub open spec fn header_ok(cols: Seq<Seq<char>>) -> bool {
    cols.len() == HEADER_COLUMNS && cols.last() == command_column()
}

/// What remains of `s` after `n` fields, each a run of non-whitespace
/// followed by a run of whitespace; `None` where `s` does not start so.
pub open spec fn after_fields(s: Seq<char>, n: nat) -> Option<Seq<char>>
    decreases n,
{
    if n == 0 {
        Some(s)
    } else {
        let a = run_len(s, false);
        let t = s.skip(a as int);
        let b = run_len(t, true);
        if a == 0 || b == 0 {
            None
        } else {
            after_fields(t.skip(b as int), (n - 1) as nat)
        }
    }
}

/// The command text of a data row: everything after the leading fields and
/// the whitespace that follows them, provided it holds no line feed.
pub open spec fn row_command(s: Seq<char>) -> Option<Seq<char>> {
    match after_fields(s, LEADING_FIELDS as nat) {
        Some(rest) => if rest.contains('\n') { None } else { Some(rest) },
        None => None,
    }
}

proof fn lemma_words_skip_word(s: Seq<char>, cur: Seq<char>)
    ensures
        words_from(s, cur) == words_from(
            s.skip(run_len(s, false) as int),
            cur + s.take(run_len(s, false) as int),
        ),
    decreases s.len(),
{
    if s.len() > 0 && !is_ws(s[0]) {
        lemma_words_skip_word(s.drop_first(), cur.push(s[0]));
        lemma_run_len_bound(s, false);
        let a = run_len(s, false);
        assert(s.drop_first().skip(a - 1) =~= s.skip(a as int));
        assert(cur.push(s[0]) + s.drop_first().take(a - 1) =~= cur + s.take(a as int));
    } else {
        assert(s.skip(0) =~= s);
        assert(cur + s.take(0) =~= cur);
    }
}

proof fn lemma_words_skip_blanks(t: Seq<char>, cur: Seq<char>)
    requires
        run_len(t, true) > 0,
    ensures
        words_from(t, cur) == (if cur.len() > 0 { seq![cur] } else { seq![] }) + words_from(
            t.skip(run_len(t, true) as int),
            seq![],
        ),
    decreases t.len(),
{
    let b = run_len(t, true);
    let u = t.drop_first();
    lemma_run_len_bound(t, true);
    if run_len(u, true) > 0 {
        lemma_words_skip_blanks(u, seq![]);
        assert(u.skip(b - 1) =~= t.skip(b as int));
        assert(Seq::<Seq<char>>::empty() + words_from(t.skip(b as int), seq![]) =~= words_from(
            t.skip(b as int),
            seq![],
        ));
    } else {
        assert(u =~= t.skip(1));
    }
}

proof fn lemma_fields_have_words(s: Seq<char>, n: nat, cur: Seq<char>)
    requires
        after_fields(s, n) is Some,
    ensures
        words_from(s, cur).len() >= n,
    decreases n,
{
    if n > 0 {
        let a = run_len(s, false);
        let t = s.skip(a as int);
        let b = run_len(t, true);
        let w = cur + s.take(a as int);
        lemma_run_len_bound(s, false);
        lemma_run_len_bound(t, true);
        lemma_words_skip_word(s, cur);
        lemma_words_skip_blanks(t, w);
        lemma_fields_have_words(t.skip(b as int), (n - 1) as nat, seq![]);
    }
}

/// A data row with fewer words than the leading fields has no command text:
/// it does not match the row pattern.
pub proof fn lemma_short_row_has_no_command(line: Seq<char>)
    requires
        words(line).len() < LEADING_FIELDS,
    ensures
        row_command(line) is None,
{
    if after_fields(line, LEADING_FIELDS as nat) is Some {
        lemma_fields_have_words(line, LEADING_FIELDS as nat, seq![]);
    }
}

/// The arguments of the listing command, `ps auwx`.
pub open spec fn listing_args() -> Seq<Seq<char>> {
    seq![seq!['p', 's'], seq!['a', 'u', 'w', 'x']]
}

/// The command line that lists every process on the remote host.
pub fn listing_command() -> (r: String)
    ensures
        r@ == join_words(quote_all(listing_args())),
{
    let ps = String::from_str("ps");
    let auwx = String::from_str("auwx");
    proof {
        reveal_strlit("ps");
        reveal_strlit("auwx");
        assert(ps@ =~= seq!['p', 's']);
        assert(auwx@ =~= seq!['a', 'u', 'w', 'x']);
    }
    let mut argv: Vec<String> = Vec::new();
    argv.push(ps);
    argv.push(auwx);
    assert(argv@.map_values(|a: String| a@) =~= listing_args());
    command_line(&argv)
}

/// Checks the header row of a listing and returns its columns.
pub fn parse_header(line: &str) -> (r: Result<Vec<String>, ListingError>)
    ensures
        header_ok(words(line@)) <==> r is Ok,
        r matches Ok(cols) ==> views(cols@) == words(line@),
        r matches Err(e) ==> e == ListingError::BadHeader,
{
    let cols = split_words(line);
    proof {
        assert(cols@.len() == views(cols@).len());
    }
    if cols.len() != HEADER_COLUMNS {
        return Err(ListingError::BadHeader);
    }
    let last = cols[HEADER_COLUMNS - 1].as_str();
    let ghost lv = views(cols@)[HEADER_COLUMNS - 1];
    assert(last@ == lv);
    let mut same = last.unicode_len() == 7;
    let mut k: usize = 0;
    let expected = "COMMAND";
    proof {
        reveal_strlit("COMMAND");
    }
    while same && k < 7
        invariant
            lv == last@,
            expected@ == command_column(),
            0 <= k <= 7,
            same ==> last@.len() == 7,
            same ==> forall|m: int| 0 <= m < k ==> last@[m] == command_column()[m],
            !same ==> last@ != command_column(),
        decreases 7 - k,
    {
        if last.get_char(k) != expected.get_char(k) {
            same = false;
        }
        k = k + 1;
    }
    if same {
        assert(last@ =~= command_column());
        Ok(cols)
    } else {
        Err(ListingError::BadHeader)
    }
}

/// Checks the first line of a listing, which must exist and be the header.
pub fn parse_first_line(first: Option<&str>) -> (r: Result<Vec<String>, ListingError>)
    ensures
        first is None ==> r == Err::<Vec<String>, ListingError>(ListingError::NoOutput),
        first matches Some(line) ==> (header_ok(words(line@)) <==> r is Ok),
        first matches Some(line) ==> (r matches Ok(cols) ==> views(cols@) == words(line@)),
        first matches Some(line) ==> (r matches Err(e) ==> e == ListingError::BadHeader),
{
    match first {
        None => Err(ListingError::NoOutput),
        Some(line) => parse_header(line),
    }
}

/// Extracts the command text from a data row of a listing.
pub fn parse_row(line: &str) -> (r: Result<String, ListingError>)
    ensures
        row_command(line@) is Some <==> r is Ok,
        r matches Ok(cmd) ==> row_command(line@) == Some(cmd@),
        r matches Err(e) ==> e == ListingError::BadRow,
{
    let n = line.unicode_len();
    let mut i: usize = 0;
    let mut k: usize = 0;
    assert(line@.skip(0) =~= line@);
    while k < LEADING_FIELDS
        invariant
            n == line@.len(),
            i <= n,
            k <= LEADING_FIELDS,
            after_fields(line@, LEADING_FIELDS as nat) == after_fields(
                line@.skip(i as int),
                (LEADING_FIELDS - k) as nat,
            ),
        decreases LEADING_FIELDS - k,
    {
        let j = scan_run(line, n, i, false);
        if j == i {
            return Err(ListingError::BadRow);
        }
        let m = scan_run(line, n, j, true);
        if m == j {
            proof {
                assert(line@.skip(i as int).skip(j - i) =~= line@.skip(j as int));
            }
            return Err(ListingError::BadRow);
        }
        proof {
            assert(line@.skip(i as int).skip(j - i) =~= line@.skip(j as int));
            assert(line@.skip(j as int).skip(m - j) =~= line@.skip(m as int));
        }
        i = m;
        k = k + 1;
    }
    let rest = line.substring_char(i, n);
    assert(rest@ =~= line@.skip(i as int));
    assert(after_fields(line@, LEADING_FIELDS as nat) == Some(rest@));
    let mut p: usize = i;
    while p < n
        invariant
            n == line@.len(),
            i <= p <= n,
            rest@ == line@.skip(i as int),
            after_fields(line@, LEADING_FIELDS as nat) == Some(rest@),
            forall|q: int| i <= q < p ==> line@[q] != '\n',
        decreases n - p,
    {
        if line.get_char(p) == '\n' {
            assert(rest@[p - i] == '\n');
            assert(rest@.contains('\n'));
            return Err(ListingError::BadRow);
        }
        p = p + 1;
    }
    assert(!rest@.contains('\n')) by {
        assert forall|q: int| 0 <= q < rest@.len() implies rest@[q] != '\n' by {
            assert(rest@[q] == line@[q + i]);
        }
    }
    Ok(String::from_str(rest))
}

} // verus!
