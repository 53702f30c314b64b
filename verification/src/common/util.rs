//! Splitting of startup command lines into a program and its arguments.

use vstd::prelude::*;
use vstd::std_specs::iter::IteratorSpec;

verus! {

broadcast use vstd::string::group_string_axioms;

/// What a backslash escape inside quotes stands for: `\n`, `\t`, `\r`,
/// `\\`, `\'` and `\"` give the escaped character, any other character is
/// kept together with its backslash.
pub open spec fn escape_text(c: char) -> Seq<char> {
    if c == 'n' {
        seq!['\n']
    } else if c == 't' {
        seq!['\t']
    } else if c == 'r' {
        seq!['\r']
    } else if c == '\\' || c == '\'' || c == '"' {
        seq![c]
    } else {
        seq!['\\', c]
    }
}

/// A quote character: it toggles quoting and is never part of a part.
pub open spec fn is_quote(c: char) -> bool {
    c == '\'' || c == '"'
}

/// A separator between parts when outside quotes.
pub open spec fn is_blank(c: char) -> bool {
    c == ' ' || c == '\t'
}

/// The parts of the rest `s` of a command line, given the parts already
/// finished, the part being read, and whether the reader is inside quotes.
///
/// Outside quotes, spaces and tabs end the current part (empty parts are
/// never produced). Either quote character toggles quoting. Inside quotes a
/// backslash escapes the next character (see `escape_text`); a backslash at
/// the very end is kept. Every other character is added to the current part.
pub open spec fn parts_from(
    s: Seq<char>,
    parts: Seq<Seq<char>>,
    cur: Seq<char>,
    in_quotes: bool,
) -> Seq<Seq<char>>
    decreases s.len(),
{
    if s.len() == 0 {
        if cur.len() > 0 {
            parts.push(cur)
        } else {
            parts
        }
    } else {
        let c = s[0];
        let rest = s.drop_first();
        if is_quote(c) {
            parts_from(rest, parts, cur, !in_quotes)
        } else if is_blank(c) && !in_quotes {
            if cur.len() > 0 {
                parts_from(rest, parts.push(cur), Seq::empty(), in_quotes)
            } else {
                parts_from(rest, parts, cur, in_quotes)
            }
        } else if c == '\\' && in_quotes {
            if rest.len() == 0 {
                parts_from(rest, parts, cur.push('\\'), in_quotes)
            } else {
                parts_from(rest.drop_first(), parts, cur + escape_text(rest[0]), in_quotes)
            }
        } else {
            parts_from(rest, parts, cur.push(c), in_quotes)
        }
    }
}

/// The parts of a whole command line.
pub open spec fn command_parts(s: Seq<char>) -> Seq<Seq<char>> {
    parts_from(s, Seq::empty(), Seq::empty(), false)
}

/// The characters of `s` that are not blanks, in order.
pub open spec fn without_blanks(s: Seq<char>) -> Seq<char>
    decreases s.len(),
{
    if s.len() == 0 {
        Seq::empty()
    } else if is_blank(s[0]) {
        without_blanks(s.drop_first())
    } else {
        seq![s[0]] + without_blanks(s.drop_first())
    }
}

/// The parts written one after the other.
pub open spec fn joined(parts: Seq<Seq<char>>) -> Seq<char>
    decreases parts.len(),
{
    if parts.len() == 0 {
        Seq::empty()
    } else {
        joined(parts.drop_last()) + parts.last()
    }
}

/// Whether `s` holds no quote character.
pub open spec fn has_no_quotes(s: Seq<char>) -> bool {
    forall|i: int| 0 <= i < s.len() ==> !is_quote(#[trigger] s[i])
}

/// Whether every part holds at least one character.
pub open spec fn all_nonempty(parts: Seq<Seq<char>>) -> bool {
    forall|i: int| 0 <= i < parts.len() ==> (#[trigger] parts[i]).len() > 0
}

proof fn lemma_push_nonempty(parts: Seq<Seq<char>>, cur: Seq<char>)
    requires
        all_nonempty(parts),
        cur.len() > 0,
    ensures
        all_nonempty(parts.push(cur)),
{
    assert forall|i: int| 0 <= i < parts.push(cur).len() implies (
    #[trigger] parts.push(cur)[i]).len() > 0 by {
        if i < parts.len() {
            assert(parts.push(cur)[i] == parts[i]);
        }
    }
}

proof fn lemma_parts_from_nonempty(
    s: Seq<char>,
    parts: Seq<Seq<char>>,
    cur: Seq<char>,
    in_quotes: bool,
)
    requires
        all_nonempty(parts),
    ensures
        all_nonempty(parts_from(s, parts, cur, in_quotes)),
    decreases s.len(),
{
    if cur.len() > 0 {
        lemma_push_nonempty(parts, cur);
    }
    if s.len() > 0 {
        let c = s[0];
        let rest = s.drop_first();
        if is_quote(c) {
            lemma_parts_from_nonempty(rest, parts, cur, !in_quotes);
        } else if is_blank(c) && !in_quotes {
            if cur.len() > 0 {
                lemma_parts_from_nonempty(rest, parts.push(cur), Seq::empty(), in_quotes);
            } else {
                lemma_parts_from_nonempty(rest, parts, cur, in_quotes);
            }
        } else if c == '\\' && in_quotes {
            if rest.len() == 0 {
                lemma_parts_from_nonempty(rest, parts, cur.push('\\'), in_quotes);
            } else {
                lemma_parts_from_nonempty(
                    rest.drop_first(),
                    parts,
                    cur + escape_text(rest[0]),
                    in_quotes,
                );
            }
        } else {
            lemma_parts_from_nonempty(rest, parts, cur.push(c), in_quotes);
        }
    }
}

/// Splitting never yields an empty part: blanks only end a part that
/// already holds text, and the text left at the end is kept only when there
/// is some.
pub proof fn lemma_parts_are_nonempty(command: Seq<char>)
    ensures
        all_nonempty(command_parts(command)),
{
    lemma_parts_from_nonempty(command, Seq::empty(), Seq::empty(), false);
}

proof fn lemma_parts_from_unquoted(s: Seq<char>, parts: Seq<Seq<char>>, cur: Seq<char>)
    requires
        has_no_quotes(s),
        forall|i: int| 0 <= i < cur.len() ==> !is_blank(#[trigger] cur[i]),
        forall|i: int, j: int|
            0 <= i < parts.len() && 0 <= j < parts[i].len() ==> !is_blank(#[trigger] parts[i][j]),
    ensures
        joined(parts_from(s, parts, cur, false)) == joined(parts) + cur + without_blanks(s),
        forall|i: int, j: int|
            0 <= i < parts_from(s, parts, cur, false).len() && 0 <= j < parts_from(
                s,
                parts,
                cur,
                false,
            )[i].len() ==> !is_blank(#[trigger] parts_from(s, parts, cur, false)[i][j]),
    decreases s.len(),
{
    if s.len() == 0 {
        if cur.len() > 0 {
            assert(parts.push(cur).drop_last() =~= parts);
        }
        assert(joined(parts) + cur + without_blanks(s) =~= joined(parts_from(s, parts, cur, false)));
    } else {
        let c = s[0];
        let rest = s.drop_first();
        assert(!is_quote(c));
        assert(has_no_quotes(rest)) by {
            assert forall|i: int| 0 <= i < rest.len() implies !is_quote(#[trigger] rest[i]) by {
                assert(rest[i] == s[i + 1]);
            }
        }
        if is_blank(c) {
            if cur.len() > 0 {
                assert(parts.push(cur).drop_last() =~= parts);
                assert forall|i: int, j: int|
                    0 <= i < parts.push(cur).len() && 0 <= j < parts.push(cur)[i].len()
                    implies !is_blank(#[trigger] parts.push(cur)[i][j]) by {
                    if i < parts.len() {
                        assert(parts.push(cur)[i] == parts[i]);
                    }
                }
                lemma_parts_from_unquoted(rest, parts.push(cur), Seq::empty());
                assert(joined(parts.push(cur)) + Seq::<char>::empty() + without_blanks(rest)
                    =~= joined(parts) + cur + without_blanks(s));
            } else {
                lemma_parts_from_unquoted(rest, parts, cur);
                assert(joined(parts) + cur + without_blanks(rest) =~= joined(parts) + cur
                    + without_blanks(s));
            }
        } else {
            assert forall|i: int| 0 <= i < cur.push(c).len() implies !is_blank(
                #[trigger] cur.push(c)[i],
            ) by {
                if i < cur.len() {
                    assert(cur.push(c)[i] == cur[i]);
                }
            }
            lemma_parts_from_unquoted(rest, parts, cur.push(c));
            assert(joined(parts) + cur.push(c) + without_blanks(rest) =~= joined(parts) + cur
                + without_blanks(s));
        }
    }
}

/// A command line without quotes splits at its blanks and nowhere else: no
/// part holds a blank, and the parts written one after the other give back
/// the command with its blanks taken out.
pub proof fn lemma_unquoted_command_splits_at_blanks(command: Seq<char>)
    requires
        has_no_quotes(command),
    ensures
        joined(command_parts(command)) == without_blanks(command),
        forall|i: int, j: int|
            0 <= i < command_parts(command).len() && 0 <= j < command_parts(command)[i].len()
                ==> !is_blank(#[trigger] command_parts(command)[i][j]),
{
    lemma_parts_from_unquoted(command, Seq::empty(), Seq::empty());
    assert(joined(Seq::<Seq<char>>::empty()) + Seq::<char>::empty() + without_blanks(command)
        =~= without_blanks(command));
}

/// Text without quotes, blanks or backslashes: read as it stands, both
/// inside and outside quotes.
pub open spec fn is_plain_text(s: Seq<char>) -> bool {
    forall|i: int|
        0 <= i < s.len() ==> !is_quote(#[trigger] s[i]) && !is_blank(s[i]) && s[i] != '\\'
}

/// Plain text is added to the part being read, character for character,
/// whether or not the reader is inside quotes.
proof fn lemma_plain_text_extends_part(
    t: Seq<char>,
    rest: Seq<char>,
    parts: Seq<Seq<char>>,
    cur: Seq<char>,
    in_quotes: bool,
)
    requires
        is_plain_text(t),
    ensures
        parts_from(t + rest, parts, cur, in_quotes) == parts_from(rest, parts, cur + t, in_quotes),
    decreases t.len(),
{
    if t.len() == 0 {
        assert(t + rest =~= rest);
        assert(cur + t =~= cur);
    } else {
        let c = t[0];
        assert((t + rest)[0] == c);
        assert((t + rest).drop_first() =~= t.drop_first() + rest);
        assert(is_plain_text(t.drop_first())) by {
            assert forall|i: int| 0 <= i < t.drop_first().len() implies !is_quote(
                #[trigger] t.drop_first()[i],
            ) && !is_blank(t.drop_first()[i]) && t.drop_first()[i] != '\\' by {
                assert(t.drop_first()[i] == t[i + 1]);
            }
        }
        assert(!is_quote(c) && !is_blank(c) && c != '\\');
        lemma_plain_text_extends_part(t.drop_first(), rest, parts, cur.push(c), in_quotes);
        assert(cur.push(c) + t.drop_first() =~= cur + t);
    }
}

/// A quote toggles quoting wherever it stands, even in the middle of a
/// word, and is dropped: `a'b'` (with `a` not empty, and `a`, `b` plain
/// text) is the one part `ab`, for either quote character.
pub proof fn lemma_quote_inside_word_is_dropped(a: Seq<char>, b: Seq<char>, q: char)
    requires
        a.len() > 0,
        is_plain_text(a),
        is_plain_text(b),
        is_quote(q),
    ensures
        command_parts(a + seq![q] + b + seq![q]) == seq![a + b],
{
    let tail = seq![q] + b + seq![q];
    assert(a + seq![q] + b + seq![q] =~= a + tail);
    lemma_plain_text_extends_part(a, tail, Seq::empty(), Seq::empty(), false);
    assert(Seq::<char>::empty() + a =~= a);
    assert(tail[0] == q);
    assert(tail.drop_first() =~= b + seq![q]);
    lemma_plain_text_extends_part(b, seq![q], Seq::empty(), a, true);
    let last = seq![q];
    assert(last.drop_first() =~= Seq::<char>::empty());
    assert((a + b).len() > 0);
    assert(parts_from(Seq::<char>::empty(), Seq::<Seq<char>>::empty(), a + b, false) =~= seq![
        a + b,
    ]);
}

/// A blank outside quotes separates two words: `a b` is the two parts
/// `a` and `b`.
pub proof fn lemma_blank_separates_words(a: Seq<char>, b: Seq<char>, blank: char)
    requires
        a.len() > 0,
        b.len() > 0,
        is_plain_text(a),
        is_plain_text(b),
        is_blank(blank),
    ensures
        command_parts(a + seq![blank] + b) == seq![a, b],
{
    let tail = seq![blank] + b;
    assert(a + seq![blank] + b =~= a + tail);
    lemma_plain_text_extends_part(a, tail, Seq::empty(), Seq::empty(), false);
    assert(Seq::<char>::empty() + a =~= a);
    assert(tail[0] == blank);
    assert(tail.drop_first() =~= b + Seq::<char>::empty());
    lemma_plain_text_extends_part(b, Seq::empty(), seq![a], Seq::empty(), false);
    assert(Seq::<char>::empty() + b =~= b);
    assert(seq![a].push(b) =~= seq![a, b]);
    assert(Seq::<Seq<char>>::empty().push(a) =~= seq![a]);
}

/// Inside quotes blanks are text: `'a b'` is the one part `a b`.
pub proof fn lemma_quoted_blank_is_kept(a: Seq<char>, b: Seq<char>, q: char, blank: char)
    requires
        is_plain_text(a),
        is_plain_text(b),
        is_quote(q),
        is_blank(blank),
    ensures
        command_parts(seq![q] + a + seq![blank] + b + seq![q]) == seq![a + seq![blank] + b],
{
    let cmd = seq![q] + a + seq![blank] + b + seq![q];
    let after_q = a + (seq![blank] + b + seq![q]);
    assert(cmd[0] == q);
    assert(cmd.drop_first() =~= after_q);
    lemma_plain_text_extends_part(a, seq![blank] + b + seq![q], Seq::empty(), Seq::empty(), true);
    assert(Seq::<char>::empty() + a =~= a);
    let t2 = seq![blank] + b + seq![q];
    assert(t2[0] == blank);
    assert(t2.drop_first() =~= b + seq![q]);
    lemma_plain_text_extends_part(b, seq![q], Seq::empty(), a.push(blank), true);
    assert(a.push(blank) + b =~= a + seq![blank] + b);
    let last = seq![q];
    assert(last.drop_first() =~= Seq::<char>::empty());
    assert(parts_from(Seq::<char>::empty(), Seq::<Seq<char>>::empty(), a + seq![blank] + b, false)
        =~= seq![a + seq![blank] + b]);
}

/// Inside quotes a backslash escapes the next character: `\n`, `\t` and
/// `\r` stand for a newline, a tab and a carriage return, `\\`, `\'` and
/// `\"` for the character itself, and a backslash before any other
/// character is kept with it.
pub proof fn lemma_escapes_inside_quotes(a: Seq<char>, b: Seq<char>, q: char, x: char)
    requires
        is_plain_text(a),
        is_plain_text(b),
        is_quote(q),
    ensures
        command_parts(seq![q] + a + seq!['\\', x] + b + seq![q]) == seq![
            a + (if x == 'n' {
                seq!['\n']
            } else if x == 't' {
                seq!['\t']
            } else if x == 'r' {
                seq!['\r']
            } else if x == '\\' || x == '\'' || x == '"' {
                seq![x]
            } else {
                seq!['\\', x]
            }) + b,
        ],
{
    let cmd = seq![q] + a + seq!['\\', x] + b + seq![q];
    let t1 = seq!['\\', x] + b + seq![q];
    assert(cmd[0] == q);
    assert(cmd.drop_first() =~= a + t1);
    lemma_plain_text_extends_part(a, t1, Seq::empty(), Seq::empty(), true);
    assert(Seq::<char>::empty() + a =~= a);
    assert(t1[0] == '\\');
    assert(t1.drop_first().len() > 0);
    assert(t1.drop_first()[0] == x);
    assert(t1.drop_first().drop_first() =~= b + seq![q]);
    let e = escape_text(x);
    lemma_plain_text_extends_part(b, seq![q], Seq::empty(), a + e, true);
    let last = seq![q];
    assert(last.drop_first() =~= Seq::<char>::empty());
    assert(e.len() > 0);
    assert(parts_from(Seq::<char>::empty(), Seq::<Seq<char>>::empty(), a + e + b, false)
        =~= seq![a + e + b]);
}

/// A backslash that ends a quoted command line is kept.
pub proof fn lemma_trailing_backslash_is_kept(a: Seq<char>, q: char)
    requires
        is_plain_text(a),
        is_quote(q),
    ensures
        command_parts(seq![q] + a + seq!['\\']) == seq![a.push('\\')],
{
    let cmd = seq![q] + a + seq!['\\'];
    assert(cmd[0] == q);
    assert(cmd.drop_first() =~= a + seq!['\\']);
    lemma_plain_text_extends_part(a, seq!['\\'], Seq::empty(), Seq::empty(), true);
    assert(Seq::<char>::empty() + a =~= a);
    let last = seq!['\\'];
    assert(last.drop_first() =~= Seq::<char>::empty());
    assert(parts_from(Seq::<char>::empty(), Seq::<Seq<char>>::empty(), a.push('\\'), true)
        =~= seq![a.push('\\')]);
}

/// Whether no part holds a quote character.
pub open spec fn parts_without_quotes(parts: Seq<Seq<char>>) -> bool {
    forall|i: int, j: int|
        0 <= i < parts.len() && 0 <= j < parts[i].len() ==> !is_quote(#[trigger] parts[i][j])
}

/// Whether `s` holds no backslash.
pub open spec fn has_no_backslash(s: Seq<char>) -> bool {
    forall|i: int| 0 <= i < s.len() ==> #[trigger] s[i] != '\\'
}

proof fn lemma_push_part_without_quotes(parts: Seq<Seq<char>>, cur: Seq<char>)
    requires
        parts_without_quotes(parts),
        forall|j: int| 0 <= j < cur.len() ==> !is_quote(#[trigger] cur[j]),
    ensures
        parts_without_quotes(parts.push(cur)),
{
    assert forall|i: int, j: int|
        0 <= i < parts.push(cur).len() && 0 <= j < parts.push(cur)[i].len() implies !is_quote(
        #[trigger] parts.push(cur)[i][j],
    ) by {
        if i < parts.len() {
            assert(parts.push(cur)[i] == parts[i]);
        }
    }
}

proof fn lemma_parts_from_without_quotes(
    s: Seq<char>,
    parts: Seq<Seq<char>>,
    cur: Seq<char>,
    in_quotes: bool,
)
    requires
        has_no_backslash(s),
        parts_without_quotes(parts),
        forall|j: int| 0 <= j < cur.len() ==> !is_quote(#[trigger] cur[j]),
    ensures
        parts_without_quotes(parts_from(s, parts, cur, in_quotes)),
    decreases s.len(),
{
    lemma_push_part_without_quotes(parts, cur);
    if s.len() > 0 {
        let c = s[0];
        let rest = s.drop_first();
        assert(has_no_backslash(rest)) by {
            assert forall|i: int| 0 <= i < rest.len() implies #[trigger] rest[i] != '\\' by {
                assert(rest[i] == s[i + 1]);
            }
        }
        assert(c != '\\');
        if is_quote(c) {
            lemma_parts_from_without_quotes(rest, parts, cur, !in_quotes);
        } else if is_blank(c) && !in_quotes {
            if cur.len() > 0 {
                lemma_parts_from_without_quotes(rest, parts.push(cur), Seq::empty(), in_quotes);
            } else {
                lemma_parts_from_without_quotes(rest, parts, cur, in_quotes);
            }
        } else {
            assert forall|j: int| 0 <= j < cur.push(c).len() implies !is_quote(
                #[trigger] cur.push(c)[j],
            ) by {
                if j < cur.len() {
                    assert(cur.push(c)[j] == cur[j]);
                }
            }
            lemma_parts_from_without_quotes(rest, parts, cur.push(c), in_quotes);
        }
    }
}

/// Quote characters only steer quoting: in a command line without
/// backslashes (so without escaped quotes) no part holds a quote
/// character, wherever the quotes stand.
pub proof fn lemma_quotes_never_in_parts(command: Seq<char>)
    requires
        has_no_backslash(command),
    ensures
        parts_without_quotes(command_parts(command)),
{
    lemma_parts_from_without_quotes(command, Seq::empty(), Seq::empty(), false);
}

/// `String::push`: the string afterwards holds its characters before
/// followed by `c`.
#[verifier::external_body]
fn push_char(s: &mut String, c: char)
    ensures
        final(s)@ == old(s)@.push(c),
{
    s.push(c)
}

/// Splits a command line into its parts, shell style: blanks separate
/// parts, quotes group text that holds blanks, and backslash escapes work
/// inside quotes.
pub fn parse_command(command: &str) -> (parts: Vec<String>)
    ensures
        parts.deep_view() == command_parts(command@),
        forall|i: int| 0 <= i < parts.len() ==> (#[trigger] parts[i])@.len() > 0,
{
    proof {
        lemma_parts_are_nonempty(command@);
    }
    let mut parts: Vec<String> = Vec::new();
    let mut current_part = String::new();
    let mut in_quotes = false;
    let mut chars = command.chars();
    assert(parts.deep_view() =~= Seq::<Seq<char>>::empty());
    assert(chars.remaining() == command@);

    loop
        invariant
            parts_from(chars.remaining(), parts.deep_view(), current_part@, in_quotes)
                == command_parts(command@),
            chars.decrease() is Some,
        ensures
            parts_from(Seq::empty(), parts.deep_view(), current_part@, in_quotes)
                == command_parts(command@),
        decreases chars.decrease()->0,
    {
        let ghost rem = chars.remaining();
        let ghost old_parts = parts.deep_view();
        let ghost old_cur = current_part@;
        let ghost old_dec: nat = chars.decrease()->0;
        match chars.next() {
            None => {
                assert(rem.len() == 0);
                break;
            },
            Some(ch) => {
                assert(rem.len() > 0 && ch == rem[0] && chars.remaining() == rem.drop_first());
                assert(decreases_to!(old_dec => chars.decrease()->0));
                assert(chars.decrease()->0 < old_dec);
                if ch == '\'' || ch == '"' {
                    in_quotes = !in_quotes;
                } else if (ch == ' ' || ch == '\t') && !in_quotes {
                    if !current_part.as_str().is_empty() {
                        parts.push(current_part.clone());
                        assert(parts.deep_view() =~= old_parts.push(old_cur));
                        current_part = String::new();
                    }
                } else if ch == '\\' && in_quotes {
                    let ghost rest = chars.remaining();
                    let ghost mid_dec: nat = chars.decrease()->0;
                    match chars.next() {
                        Some(next_ch) => {
                            assert(rest.len() > 0 && next_ch == rest[0]);
                            assert(chars.remaining() == rest.drop_first());
                            assert(chars.decrease()->0 < mid_dec);
                            if next_ch == 'n' {
                                push_char(&mut current_part, '\n');
                            } else if next_ch == 't' {
                                push_char(&mut current_part, '\t');
                            } else if next_ch == 'r' {
                                push_char(&mut current_part, '\r');
                            } else if next_ch == '\\' || next_ch == '\'' || next_ch == '"' {
                                push_char(&mut current_part, next_ch);
                            } else {
                                push_char(&mut current_part, '\\');
                                push_char(&mut current_part, next_ch);
                            }
                            assert(current_part@ =~= old_cur + escape_text(next_ch));
                        },
                        None => {
                            assert(rest =~= Seq::<char>::empty());
                            push_char(&mut current_part, '\\');
                            assert(parts_from(rem, old_parts, old_cur, in_quotes)
                                == parts_from(rest, old_parts, old_cur.push('\\'), in_quotes));
                            break;
                        },
                    }
                } else {
                    push_char(&mut current_part, ch);
                }
            },
        }
    }
    if !current_part.as_str().is_empty() {
        let ghost old_parts = parts.deep_view();
        let ghost old_cur = current_part@;
        parts.push(current_part);
        assert(parts.deep_view() =~= old_parts.push(old_cur));
    }
    assert forall|i: int| 0 <= i < parts.len() implies (#[trigger] parts[i])@.len() > 0 by {
        assert(parts.deep_view()[i] == parts[i]@);
    }
    parts
}

/// A startup command line split into the program to run and its
/// arguments: the first part and the parts after it. A line without parts
/// gives `None`.
pub fn split_command(command: &str) -> (r: Option<(String, Vec<String>)>)
    ensures
        r is None <==> command_parts(command@).len() == 0,
        r matches Some((program, args)) ==> {
            &&& program@ == command_parts(command@)[0]
            &&& args.deep_view() == command_parts(command@).drop_first()
        },
{
    let mut parts = parse_command(command);
    if parts.len() == 0 {
        None
    } else {
        let ghost all = parts.deep_view();
        let program = parts.remove(0);
        assert(parts.deep_view() =~= all.drop_first());
        Some((program, parts))
    }
}

/// The characters Unicode calls white space: what `char::is_whitespace`
/// accepts.
pub open spec fn is_white_space(c: char) -> bool {
    let n = c as int;
    ||| 0x9 <= n <= 0xd
    ||| n == 0x20
    ||| n == 0x85
    ||| n == 0xa0
    ||| n == 0x1680
    ||| 0x2000 <= n <= 0x200a
    ||| n == 0x2028
    ||| n == 0x2029
    ||| n == 0x202f
    ||| n == 0x205f
    ||| n == 0x3000
}

/// `s` without its leading white space.
pub open spec fn trim_start(s: Seq<char>) -> Seq<char>
    decreases s.len(),
{
    if s.len() > 0 && is_white_space(s[0]) {
        trim_start(s.drop_first())
    } else {
        s
    }
}

/// `s` without its trailing white space.
pub open spec fn trim_end(s: Seq<char>) -> Seq<char>
    decreases s.len(),
{
    if s.len() > 0 && is_white_space(s.last()) {
        trim_end(s.drop_last())
    } else {
        s
    }
}

/// `s` without leading and trailing white space.
pub open spec fn trimmed(s: Seq<char>) -> Seq<char> {
    trim_end(trim_start(s))
}

/// The code of `c` after ASCII lowercasing: `A` to `Z` become `a` to `z`,
/// every other character stays as it is.
pub open spec fn ascii_lower_code(c: char) -> int {
    if 65 <= c as int <= 90 {
        c as int + 32
    } else {
        c as int
    }
}

/// Whether `s` and `word` are the same text up to ASCII case.
pub open spec fn is_word_ignoring_case(s: Seq<char>, word: Seq<char>) -> bool {
    &&& s.len() == word.len()
    &&& forall|i: int|
        0 <= i < s.len() ==> ascii_lower_code(#[trigger] s[i]) == ascii_lower_code(word[i])
}

/// Whether a setting's text turns the setting off: once trimmed and
/// lowercased it reads `0`, `false`, `no` or `off`.
pub open spec fn is_false_flag(value: Seq<char>) -> bool {
    let t = trimmed(value);
    ||| is_word_ignoring_case(t, seq!['0'])
    ||| is_word_ignoring_case(t, seq!['f', 'a', 'l', 's', 'e'])
    ||| is_word_ignoring_case(t, seq!['n', 'o'])
    ||| is_word_ignoring_case(t, seq!['o', 'f', 'f'])
}

/// Whether every character of `s` is white space.
pub open spec fn all_white_space(s: Seq<char>) -> bool {
    forall|i: int| 0 <= i < s.len() ==> is_white_space(#[trigger] s[i])
}

proof fn lemma_trim_start_skips_white_space(w: Seq<char>, u: Seq<char>)
    requires
        all_white_space(w),
    ensures
        trim_start(w + u) == trim_start(u),
    decreases w.len(),
{
    if w.len() == 0 {
        assert(w + u =~= u);
    } else {
        assert((w + u)[0] == w[0]);
        assert((w + u).drop_first() =~= w.drop_first() + u);
        assert(all_white_space(w.drop_first())) by {
            assert forall|i: int| 0 <= i < w.drop_first().len() implies is_white_space(
                #[trigger] w.drop_first()[i],
            ) by {
                assert(w.drop_first()[i] == w[i + 1]);
            }
        }
        lemma_trim_start_skips_white_space(w.drop_first(), u);
    }
}

proof fn lemma_trim_end_skips_white_space(u: Seq<char>, w: Seq<char>)
    requires
        all_white_space(w),
    ensures
        trim_end(u + w) == trim_end(u),
    decreases w.len(),
{
    if w.len() == 0 {
        assert(u + w =~= u);
    } else {
        assert((u + w).last() == w.last());
        assert((u + w).drop_last() =~= u + w.drop_last());
        assert(all_white_space(w.drop_last())) by {
            assert forall|i: int| 0 <= i < w.drop_last().len() implies is_white_space(
                #[trigger] w.drop_last()[i],
            ) by {
                assert(w.drop_last()[i] == w[i]);
            }
        }
        lemma_trim_end_skips_white_space(u, w.drop_last());
    }
}

/// White space around a setting's value does not matter: with `v` empty
/// or starting and ending with other characters, `w1 + v + w2` (`w1`, `w2`
/// white space) trims to `v` and turns the setting off exactly when `v`
/// does.
pub proof fn lemma_white_space_around_flag_is_ignored(w1: Seq<char>, v: Seq<char>, w2: Seq<char>)
    requires
        all_white_space(w1),
        all_white_space(w2),
        v.len() > 0 ==> !is_white_space(v[0]) && !is_white_space(v.last()),
    ensures
        trimmed(w1 + v + w2) == v,
        is_false_flag(w1 + v + w2) == is_false_flag(v),
{
    assert(w1 + v + w2 =~= w1 + (v + w2));
    lemma_trim_start_skips_white_space(w1, v + w2);
    if v.len() > 0 {
        assert((v + w2)[0] == v[0]);
        assert(trim_start(v + w2) == v + w2);
        lemma_trim_end_skips_white_space(v, w2);
        assert(trim_end(v) == v);
        assert(trim_start(v) == v);
    } else {
        assert(v + w2 =~= w2);
        assert(Seq::<char>::empty() + w2 =~= w2);
        lemma_trim_start_skips_white_space(w2, Seq::<char>::empty());
        assert(w2 + Seq::<char>::empty() =~= w2);
        assert(trim_start(Seq::<char>::empty()) == Seq::<char>::empty());
        assert(trim_start(v) =~= v);
    }
}

/// Case does not matter either: changing the ASCII case of any letters of
/// a value changes neither whether it turns a setting off nor anything
/// else about it.
pub proof fn lemma_flag_ignores_ascii_case(v: Seq<char>, u: Seq<char>)
    requires
        trimmed(v).len() == trimmed(u).len(),
        forall|i: int|
            0 <= i < trimmed(v).len() ==> ascii_lower_code(#[trigger] trimmed(v)[i])
                == ascii_lower_code(trimmed(u)[i]),
    ensures
        is_false_flag(v) == is_false_flag(u),
{
    lemma_same_word_ignoring_case(trimmed(v), trimmed(u), seq!['0']);
    lemma_same_word_ignoring_case(trimmed(v), trimmed(u), seq!['f', 'a', 'l', 's', 'e']);
    lemma_same_word_ignoring_case(trimmed(v), trimmed(u), seq!['n', 'o']);
    lemma_same_word_ignoring_case(trimmed(v), trimmed(u), seq!['o', 'f', 'f']);
}

proof fn lemma_same_word_ignoring_case(s: Seq<char>, t: Seq<char>, word: Seq<char>)
    requires
        s.len() == t.len(),
        forall|i: int|
            0 <= i < s.len() ==> ascii_lower_code(#[trigger] s[i]) == ascii_lower_code(t[i]),
    ensures
        is_word_ignoring_case(s, word) == is_word_ignoring_case(t, word),
{
    if is_word_ignoring_case(s, word) {
        assert forall|i: int| 0 <= i < t.len() implies ascii_lower_code(#[trigger] t[i])
            == ascii_lower_code(word[i]) by {
            assert(ascii_lower_code(s[i]) == ascii_lower_code(t[i]));
        }
    }
    if is_word_ignoring_case(t, word) {
        assert forall|i: int| 0 <= i < s.len() implies ascii_lower_code(#[trigger] s[i])
            == ascii_lower_code(word[i]) by {
            assert(ascii_lower_code(s[i]) == ascii_lower_code(t[i]));
        }
    }
}

/// Exactly the four words turn a setting off: a value that trims to
/// anything of another length than 1, 2, 3 or 5 characters never does.
pub proof fn lemma_false_flag_words_are_short(v: Seq<char>)
    ensures
        is_false_flag(v) ==> 1 <= trimmed(v).len() <= 5 && trimmed(v).len() != 4,
{
}

fn white_space(c: char) -> (b: bool)
    ensures
        b == is_white_space(c),
{
    let n = c as u32;
    (0x9 <= n && n <= 0xd) || n == 0x20 || n == 0x85 || n == 0xa0 || n == 0x1680 || (0x2000 <= n
        && n <= 0x200a) || n == 0x2028 || n == 0x2029 || n == 0x202f || n == 0x205f || n
        == 0x3000
}

fn lower_code(c: char) -> (n: u32)
    ensures
        n == ascii_lower_code(c),
{
    let n = c as u32;
    if 65 <= n && n <= 90 {
        n + 32
    } else {
        n
    }
}

/// Whether `chars[start..end]` is `word` up to ASCII case.
fn range_is_word(chars: &Vec<char>, start: usize, end: usize, word: &[char]) -> (b: bool)
    requires
        start <= end <= chars.len(),
    ensures
        b == is_word_ignoring_case(chars@.subrange(start as int, end as int), word@),
{
    if end - start != word.len() {
        return false;
    }
    let ghost t = chars@.subrange(start as int, end as int);
    let mut i: usize = 0;
    while i < word.len()
        invariant
            end - start == word.len(),
            start <= end <= chars.len(),
            t == chars@.subrange(start as int, end as int),
            0 <= i <= word.len(),
            forall|k: int|
                0 <= k < i ==> ascii_lower_code(#[trigger] t[k]) == ascii_lower_code(word@[k]),
        decreases word.len() - i,
    {
        if lower_code(chars[start + i]) != lower_code(word[i]) {
            assert(t[i as int] == chars@[start + i]);
            return false;
        }
        assert(t[i as int] == chars@[start + i]);
        i += 1;
    }
    true
}

/// Whether the text of a setting turns it off: `0`, `false`, `no` or
/// `off`, in any ASCII case, with white space around it ignored.
#[verifier::spinoff_prover]
#[verifier::rlimit(30)]
pub fn flag_value_is_false(value: &str) -> (b: bool)
    ensures
        b == is_false_flag(value@),
{
    let mut chars: Vec<char> = Vec::new();
    let mut it = value.chars();
    assert(it.remaining() == value@);
    loop
        invariant
            chars@ + it.remaining() == value@,
            it.decrease() is Some,
        ensures
            chars@ == value@,
        decreases it.decrease()->0,
    {
        let ghost rem = it.remaining();
        let ghost old_chars = chars@;
        let ghost old_dec: nat = it.decrease()->0;
        match it.next() {
            None => {
                assert(rem.len() == 0);
                assert(chars@ =~= value@);
                break;
            },
            Some(c) => {
                assert(decreases_to!(old_dec => it.decrease()->0));
                chars.push(c);
                assert(chars@ + it.remaining() =~= old_chars + rem);
            },
        }
    }
    let len = chars.len();
    let mut start: usize = 0;
    assert(chars@.subrange(0, len as int) =~= chars@);
    while start < len && white_space(chars[start])
        invariant
            len == chars.len(),
            chars@ == value@,
            start <= len,
            trim_start(value@) == trim_start(chars@.subrange(start as int, len as int)),
        decreases len - start,
    {
        assert(chars@.subrange(start as int, len as int).drop_first() =~= chars@.subrange(
            start + 1,
            len as int,
        ));
        start += 1;
    }
    let ghost u = chars@.subrange(start as int, len as int);
    assert(trim_start(value@) == u);
    let mut end: usize = len;
    while end > start && white_space(chars[end - 1])
        invariant
            len == chars.len(),
            start <= end <= len,
            u == chars@.subrange(start as int, len as int),
            trim_end(u) == trim_end(chars@.subrange(start as int, end as int)),
        decreases end - start,
    {
        assert(chars@.subrange(start as int, end as int).drop_last() =~= chars@.subrange(
            start as int,
            end - 1,
        ));
        end -= 1;
    }
    assert(trimmed(value@) == chars@.subrange(start as int, end as int));
    range_is_word(&chars, start, end, &['0']) || range_is_word(
        &chars,
        start,
        end,
        &['f', 'a', 'l', 's', 'e'],
    ) || range_is_word(&chars, start, end, &['n', 'o']) || range_is_word(
        &chars,
        start,
        end,
        &['o', 'f', 'f'],
    )
}

} // verus!
