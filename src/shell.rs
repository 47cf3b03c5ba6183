//! Shell quoting of the arguments of a remote command line.

use vstd::prelude::*;
use vstd::string::*;

verus! {

/// Characters that a POSIX shell reads literally outside quotes.
pub open spec fn is_plain(c: char) -> bool {
    ('a' <= c && c <= 'z') || ('A' <= c && c <= 'Z') || ('0' <= c && c <= '9') || c == '-'
        || c == '_' || c == '=' || c == '/' || c == ',' || c == '.' || c == '+'
}

/// How a character is written inside single quotes: a quote or `!` closes
/// the quotes, is written backslash-escaped, and reopens them.
pub open spec fn quote_char(c: char) -> Seq<char> {
    if c == '\'' || c == '!' {
        seq!['\'', '\\', c, '\'']
    } else {
        seq![c]
    }
}

/// The characters of `s` written inside single quotes.
pub open spec fn quoted_body(s: Seq<char>) -> Seq<char>
    decreases s.len(),
{
    if s.len() == 0 {
        seq![]
    } else {
        quote_char(s[0]) + quoted_body(s.drop_first())
    }
}

/// `s` written as one shell word: as it is where it is non-empty and made of
/// plain characters only, else in single quotes.
pub open spec fn shell_quote(s: Seq<char>) -> Seq<char> {
    if s.len() > 0 && forall|i: int| 0 <= i < s.len() ==> is_plain(#[trigger] s[i]) {
        s
    } else {
        seq!['\''] + quoted_body(s) + seq!['\'']
    }
}

/// Each argument written as one shell word.
pub open spec fn quote_all(args: Seq<Seq<char>>) -> Seq<Seq<char>> {
    args.map_values(|a: Seq<char>| shell_quote(a))
}

/// The words joined with one space between each two.
pub open spec fn join_words(ws: Seq<Seq<char>>) -> Seq<char>
    decreases ws.len(),
{
    if ws.len() == 0 {
        seq![]
    } else if ws.len() == 1 {
        ws[0]
    } else {
        ws[0] + seq![' '] + join_words(ws.drop_first())
    }
}

/// How a POSIX shell splits a command line into words and removes quoting,
/// for the syntax that [`shell_quote`] writes: blanks (space and tab) end a
/// word, single quotes enclose literal text, and a backslash outside quotes
/// makes the next character literal. `quoted` says whether a quote is open,
/// `word` is the word read so far and `started` whether a word has begun.
pub open spec fn shell_read(s: Seq<char>, quoted: bool, word: Seq<char>, started: bool) -> Seq<
    Seq<char>,
>
    decreases s.len(),
{
    if s.len() == 0 {
        if started { seq![word] } else { seq![] }
    } else {
        let c = s[0];
        let rest = s.drop_first();
        if quoted {
            if c == '\'' {
                shell_read(rest, false, word, true)
            } else {
                shell_read(rest, true, word.push(c), true)
            }
        } else if c == '\'' {
            shell_read(rest, true, word, true)
        } else if c == '\\' && rest.len() > 0 {
            shell_read(rest.drop_first(), false, word.push(rest[0]), true)
        } else if c == ' ' || c == '\t' {
            (if started { seq![word] } else { seq![] }) + shell_read(rest, false, seq![], false)
        } else {
            shell_read(rest, false, word.push(c), true)
        }
    }
}

/// The words that a shell reads from a command line.
pub open spec fn shell_words(line: Seq<char>) -> Seq<Seq<char>> {
    shell_read(line, false, seq![], false)
}

proof fn lemma_read_plain(s: Seq<char>, t: Seq<char>, w: Seq<char>, st: bool)
    requires
        forall|i: int| 0 <= i < s.len() ==> is_plain(#[trigger] s[i]),
    ensures
        shell_read(s + t, false, w, st) == shell_read(t, false, w + s, st || s.len() > 0),
    decreases s.len(),
{
    if s.len() == 0 {
        assert(s + t =~= t);
        assert(w + s =~= w);
    } else {
        let u = s.drop_first();
        assert((s + t)[0] == s[0]);
        assert((s + t).drop_first() =~= u + t);
        assert forall|i: int| 0 <= i < u.len() implies is_plain(#[trigger] u[i]) by {
            assert(u[i] == s[i + 1]);
        }
        lemma_read_plain(u, t, w.push(s[0]), true);
        assert(w.push(s[0]) + u =~= w + s);
    }
}

proof fn lemma_read_body(s: Seq<char>, t: Seq<char>, w: Seq<char>)
    ensures
        shell_read(quoted_body(s) + t, true, w, true) == shell_read(t, true, w + s, true),
    decreases s.len(),
{
    if s.len() == 0 {
        assert(quoted_body(s) + t =~= t);
        assert(w + s =~= w);
    } else {
        let c = s[0];
        let u = s.drop_first();
        let r = quoted_body(u) + t;
        assert(quoted_body(s) + t =~= quote_char(c) + r);
        lemma_read_body(u, t, w.push(c));
        assert(w.push(c) + u =~= w + s);
        let x = quote_char(c) + r;
        if c == '\'' || c == '!' {
            let x1 = x.drop_first();
            let x2 = x1.drop_first();
            let x3 = x2.drop_first();
            assert(x[0] == '\'');
            assert(x1 =~= seq!['\\', c, '\''] + r);
            assert(x2 =~= seq![c, '\''] + r);
            assert(x3 =~= seq!['\''] + r);
            assert(x1[0] == '\\' && x2[0] == c && x3[0] == '\'');
            assert(x3.drop_first() =~= r);
            assert(shell_read(x, true, w, true) == shell_read(x1, false, w, true));
            assert(shell_read(x1, false, w, true) == shell_read(x3, false, w.push(c), true));
            assert(shell_read(x3, false, w.push(c), true) == shell_read(r, true, w.push(c), true));
        } else {
            assert(x[0] == c);
            assert(x.drop_first() =~= r);
        }
    }
}

proof fn lemma_read_quoted(a: Seq<char>, t: Seq<char>, w: Seq<char>, st: bool)
    ensures
        shell_read(shell_quote(a) + t, false, w, st) == shell_read(t, false, w + a, true),
{
    if a.len() > 0 && forall|i: int| 0 <= i < a.len() ==> is_plain(#[trigger] a[i]) {
        lemma_read_plain(a, t, w, st);
    } else {
        let x = shell_quote(a) + t;
        let b = quoted_body(a) + (seq!['\''] + t);
        assert(x =~= seq!['\''] + b);
        assert(x.drop_first() =~= b);
        lemma_read_body(a, seq!['\''] + t, w);
        assert((seq!['\''] + t).drop_first() =~= t);
    }
}

/// Quoting each argument and joining them with spaces gives a command line
/// from which a shell reads back exactly the arguments.
pub proof fn lemma_quoted_words_round_trip(args: Seq<Seq<char>>)
    ensures
        shell_words(join_words(quote_all(args))) == args,
    decreases args.len(),
{
    let q = quote_all(args);
    if args.len() == 1 {
        assert(shell_quote(args[0]) + Seq::<char>::empty() =~= q[0]);
        lemma_read_quoted(args[0], seq![], seq![], false);
        assert(Seq::<char>::empty() + args[0] =~= args[0]);
        assert(seq![args[0]] =~= args);
    } else if args.len() > 1 {
        let rest = args.drop_first();
        assert(q.drop_first() =~= quote_all(rest));
        lemma_quoted_words_round_trip(rest);
        let tail = seq![' '] + join_words(quote_all(rest));
        assert(join_words(q) =~= shell_quote(args[0]) + tail);
        lemma_read_quoted(args[0], tail, seq![], false);
        assert(tail.drop_first() =~= join_words(quote_all(rest)));
        assert(Seq::<char>::empty() + args[0] =~= args[0]);
        assert(seq![args[0]] + rest =~= args);
    } else {
        assert(args =~= Seq::<Seq<char>>::empty());
    }
}

/// Relies on shell_escape::unix::escape, which returns its argument where it
/// is non-empty and every character is an ASCII letter, digit or one of
/// `-_=/,.+`, and otherwise wraps it in single quotes, writing each `'` and
/// `!` as `'\'` or `'\!` followed by `'`.
#[verifier::external_body]
fn escape_arg(s: &str) -> (r: String)
    ensures
        r@ == shell_quote(s@),
{
    shell_escape::unix::escape(std::borrow::Cow::Borrowed(s)).into_owned()
}

proof fn lemma_join_push(ws: Seq<Seq<char>>, w: Seq<char>)
    requires
        ws.len() > 0,
    ensures
        join_words(ws.push(w)) == join_words(ws) + seq![' '] + w,
    decreases ws.len(),
{
    assert(ws.push(w)[0] == ws[0]);
    if ws.len() == 1 {
        assert(ws.push(w).drop_first() =~= seq![w]);
        assert(join_words(seq![w]) == w);
    } else {
        lemma_join_push(ws.drop_first(), w);
        assert(ws.push(w).drop_first() =~= ws.drop_first().push(w));
        assert(ws[0] + seq![' '] + (join_words(ws.drop_first()) + seq![' '] + w) =~= ws[0]
            + seq![' '] + join_words(ws.drop_first()) + seq![' '] + w);
    }
}

/// The command line that runs `argv`: each argument quoted for the shell,
/// joined by single spaces.
pub fn command_line(argv: &Vec<String>) -> (r: String)
    ensures
        r@ == join_words(quote_all(argv@.map_values(|a: String| a@))),
{
    let ghost args = argv@.map_values(|a: String| a@);
    let mut out = String::new();
    let mut i: usize = 0;
    while i < argv.len()
        invariant
            args == argv@.map_values(|a: String| a@),
            i <= argv@.len(),
            out@ == join_words(quote_all(args.take(i as int))),
        decreases argv.len() - i,
    {
        let q = escape_arg(argv[i].as_str());
        proof {
            assert(quote_all(args.take(i + 1)) =~= quote_all(args.take(i as int)).push(q@));
            if i > 0 {
                lemma_join_push(quote_all(args.take(i as int)), q@);
            } else {
                assert(quote_all(args.take(1)) =~= seq![q@]);
            }
        }
        if i > 0 {
            out.append(" ");
        }
        out.append(q.as_str());
        proof {
            reveal_strlit(" ");
            if i == 0 {
                assert(out@ =~= q@);
            } else {
                assert(out@ =~= join_words(quote_all(args.take(i as int))) + seq![' '] + q@);
            }
        }
        i = i + 1;
    }
    assert(args.take(argv.len() as int) =~= args);
    out
}

} // verus!
