//! Small text utilities shared by the parser, the configuration renderer and the
//! replicator: decimal rendering, line splitting, joining, and peer URLs.

use vstd::prelude::*;
use vstd::std_specs::iter::IteratorSpec;
use vstd::string::StringExecFns;

verus! {

broadcast use vstd::string::group_string_axioms;

/// Appends one character to a `String` (`String::push`).
/// Trusted: the new contents are the old contents followed by `c`.
#[verifier::external_body]
pub(crate) fn push_char(s: &mut String, c: char)
    ensures
        final(s)@ == old(s)@.push(c),
{
    s.push(c);
}

/// Appends the contents of `other` to `s`.
pub fn push_text(s: &mut String, other: &str)
    ensures
        final(s)@ == old(s)@ + other@,
{
    s.append(other);
}

/// Builds an owned `String` holding the characters of `s`.
pub fn owned(s: &str) -> (out: String)
    ensures
        out@ == s@,
{
    String::from_str(s)
}

/// The character of a decimal digit `d` (`0 <= d < 10`).
pub open spec fn digit_char(d: int) -> char {
    (d + 48) as char
}

/// The decimal representation of `n`, most significant digit first, without
/// leading zeros ("0" for zero).
pub open spec fn decimal_text(n: nat) -> Seq<char>
    decreases n,
{
    if n < 10 {
        seq![digit_char(n as int)]
    } else {
        decimal_text(n / 10).push(digit_char((n % 10) as int))
    }
}

/// The number denoted by a sequence of decimal digit characters.
pub open spec fn decimal_value(s: Seq<char>) -> int
    decreases s.len(),
{
    if s.len() == 0 {
        0
    } else {
        decimal_value(s.drop_last()) * 10 + (s.last() as int - 48)
    }
}

/// Every character of `s` is one of `0`..`9`.
pub open spec fn all_digits(s: Seq<char>) -> bool {
    forall|i: int| 0 <= i < s.len() ==> '0' <= #[trigger] s[i] <= '9'
}

/// Renders `n` in decimal.
pub fn decimal_string(n: u64) -> (out: String)
    ensures
        out@ == decimal_text(n as nat),
    decreases n,
{
    let digit: char = ((n % 10) as u8 + 48u8) as char;
    if n < 10 {
        let mut out = String::new();
        push_char(&mut out, digit);
        out
    } else {
        let mut out = decimal_string(n / 10);
        push_char(&mut out, digit);
        out
    }
}

/// Decimal text is made of digits, never empty, and reads back as the number it
/// was made from.
pub proof fn lemma_decimal_round_trip(n: nat)
    ensures
        decimal_text(n).len() >= 1,
        all_digits(decimal_text(n)),
        decimal_value(decimal_text(n)) == n,
        n > 0 ==> decimal_text(n)[0] != '0',
    decreases n,
{
    if n < 10 {
        assert(decimal_text(n) == seq![digit_char(n as int)]);
        assert(decimal_text(n).drop_last() =~= Seq::<char>::empty());
        assert(digit_char(n as int) as int == n + 48);
        assert(decimal_value(Seq::<char>::empty()) == 0);
        assert(decimal_value(decimal_text(n)) == decimal_value(decimal_text(n).drop_last()) * 10 + n);
    } else {
        lemma_decimal_round_trip(n / 10);
        let s = decimal_text(n);
        assert(s.drop_last() =~= decimal_text(n / 10));
        assert(s[0] == decimal_text(n / 10)[0]);
        assert(digit_char((n % 10) as int) as int == n % 10 + 48);
        assert(s.last() == digit_char((n % 10) as int));
        assert((n / 10) * 10 + n % 10 == n);
        assert(decimal_value(s) == decimal_value(s.drop_last()) * 10 + (s.last() as int - 48));
    }
}

/// The host part of a `host:port` address: everything before the first `:`,
/// or the whole text when it holds no `:`.
pub open spec fn host_part(s: Seq<char>) -> Seq<char>
    decreases s.len(),
{
    if s.len() == 0 {
        s
    } else if s[0] == ':' {
        Seq::<char>::empty()
    } else {
        seq![s[0]] + host_part(s.drop_first())
    }
}

proof fn lemma_host_part_step(s: Seq<char>, k: int)
    requires
        0 <= k < s.len(),
        forall|i: int| 0 <= i < k ==> s[i] != ':',
    ensures
        host_part(s) == s.take(k) + host_part(s.skip(k)),
    decreases k,
{
    if k > 0 {
        lemma_host_part_step(s.drop_first(), k - 1);
        assert(s.drop_first().take(k - 1) =~= s.take(k).drop_first());
        assert(s.drop_first().skip(k - 1) =~= s.skip(k));
        assert(seq![s[0]] + s.take(k).drop_first() =~= s.take(k));
    } else {
        assert(s.skip(0) =~= s);
        assert(s.take(0) =~= Seq::<char>::empty());
    }
}

/// The host part is the longest prefix without a `:`: it is a prefix, holds no
/// `:`, and is followed by a `:` unless it is the whole text.
pub proof fn lemma_host_part_shape(s: Seq<char>)
    ensures
        host_part(s).len() <= s.len(),
        host_part(s) == s.take(host_part(s).len() as int),
        forall|i: int| 0 <= i < host_part(s).len() ==> #[trigger] host_part(s)[i] != ':',
        host_part(s).len() < s.len() ==> s[host_part(s).len() as int] == ':',
    decreases s.len(),
{
    if s.len() == 0 {
        assert(s.take(0) =~= s);
    } else if s[0] == ':' {
        assert(s.take(0) =~= Seq::<char>::empty());
    } else {
        let rest = s.drop_first();
        lemma_host_part_shape(rest);
        let h = host_part(s);
        assert(h == seq![s[0]] + host_part(rest));
        assert(h =~= s.take(h.len() as int)) by {
            assert forall|i: int| 0 <= i < h.len() implies h[i] == s.take(h.len() as int)[i] by {
                if i > 0 {
                    assert(host_part(rest)[i - 1] == rest.take(host_part(rest).len() as int)[i - 1]);
                }
            }
        }
        assert forall|i: int| 0 <= i < h.len() implies #[trigger] h[i] != ':' by {
            if i > 0 {
                assert(h[i] == host_part(rest)[i - 1]);
            }
        }
        if h.len() < s.len() {
            assert(s[h.len() as int] == rest[host_part(rest).len() as int]);
        }
    }
}

/// The text before the first `:` of `addr` (`addr.split(':').next()`).
pub fn host_of(addr: &str) -> (host: String)
    ensures
        host@ == host_part(addr@),
        host@.len() <= addr@.len(),
        host@ == addr@.take(host@.len() as int),
        forall|i: int| 0 <= i < host@.len() ==> #[trigger] host@[i] != ':',
        host@.len() < addr@.len() ==> addr@[host@.len() as int] == ':',
{
    proof {
        lemma_host_part_shape(addr@);
    }
    let mut host = String::new();
    let mut it = addr.chars();
    let ghost mut k: int = 0;
    loop
        invariant
            0 <= k <= addr@.len(),
            it.remaining() == addr@.skip(k),
            host@ == addr@.take(k),
            forall|i: int| 0 <= i < k ==> addr@[i] != ':',
        decreases addr@.len() - k,
    {
        match it.next() {
            Some(c) => {
                proof {
                    lemma_host_part_step(addr@, k);
                }
                if c == ':' {
                    assert(addr@.skip(k)[0] == ':');
                    assert(host_part(addr@.skip(k)) == Seq::<char>::empty());
                    assert(host@ + Seq::<char>::empty() =~= host@);
                    return host;
                }
                push_char(&mut host, c);
                proof {
                    k = k + 1;
                }
                assert(addr@.take(k) =~= addr@.take(k - 1).push(c));
            },
            None => {
                proof {
                    assert(addr@.take(k) =~= addr@);
                    if addr@.len() > 0 {
                        lemma_host_part_step(addr@, addr@.len() - 1);
                        let last = addr@.skip(addr@.len() - 1);
                        assert(host_part(last.drop_first()) == last.drop_first());
                        assert(addr@.take(addr@.len() - 1) + seq![last[0]] =~= addr@);
                    }
                }
                return host;
            },
        }
    }
}

/// `http://<host>:<port>`.
pub open spec fn http_url_text(host: Seq<char>, port: nat) -> Seq<char> {
    "http://"@ + host + ":"@ + decimal_text(port)
}

/// Renders `http://<host>:<port>`.
pub fn http_url(host: &str, port: u16) -> (url: String)
    ensures
        url@ == http_url_text(host@, port as nat),
{
    let mut url = owned("http://");
    push_text(&mut url, host);
    push_text(&mut url, ":");
    let digits = decimal_string(port as u64);
    push_text(&mut url, digits.as_str());
    url
}


/// `line` without one trailing carriage return.
pub open spec fn strip_cr(line: Seq<char>) -> Seq<char> {
    if line.len() > 0 && line.last() == '\r' {
        line.drop_last()
    } else {
        line
    }
}

/// Reading `s` from the left: the lines finished so far (each ended by `\n`,
/// with the `\n` and one `\r` before it removed) and the unfinished tail.
pub open spec fn scan_lines(s: Seq<char>) -> (Seq<Seq<char>>, Seq<char>)
    decreases s.len(),
{
    if s.len() == 0 {
        (Seq::<Seq<char>>::empty(), Seq::<char>::empty())
    } else {
        let (done, cur) = scan_lines(s.drop_last());
        if s.last() == '\n' {
            (done.push(strip_cr(cur)), Seq::<char>::empty())
        } else {
            (done, cur.push(s.last()))
        }
    }
}

/// The lines of `s` as `str::lines` yields them: split at `\n`, a `\r` just
/// before a `\n` removed, and no empty line after a final `\n`.
pub open spec fn text_lines(s: Seq<char>) -> Seq<Seq<char>> {
    let (done, cur) = scan_lines(s);
    if cur.len() == 0 {
        done
    } else {
        done.push(cur)
    }
}

/// Splits `input` into its lines (`str::lines`).
pub fn split_lines(input: &str) -> (lines: Vec<String>)
    ensures
        lines.deep_view() == text_lines(input@),
{
    let mut lines: Vec<String> = Vec::new();
    let mut cur = String::new();
    let mut pending_cr = false;
    let mut it = input.chars();
    let ghost mut k: int = 0;
    loop
        invariant
            0 <= k <= input@.len(),
            it.remaining() == input@.skip(k),
            lines.deep_view() == scan_lines(input@.take(k)).0,
            scan_lines(input@.take(k)).1 == (if pending_cr { cur@.push('\r') } else { cur@ }),
            !pending_cr ==> (cur@.len() == 0 || cur@.last() != '\r'),
        decreases input@.len() - k,
    {
        match it.next() {
            Some(c) => {
                let ghost before = input@.take(k);
                proof {
                    k = k + 1;
                    assert(input@.take(k).drop_last() =~= before);
                    assert(input@.take(k).last() == c);
                }
                proof {
                    let (d0, c0) = scan_lines(before);
                    if c == '\n' {
                        if pending_cr {
                            assert(c0.drop_last() =~= cur@);
                        }
                        assert(strip_cr(c0) == cur@);
                        assert(scan_lines(input@.take(k)).0 == d0.push(cur@));
                    } else {
                        assert(scan_lines(input@.take(k)).0 == d0);
                        assert(scan_lines(input@.take(k)).1 == c0.push(c));
                    }
                }
                if c == '\n' {
                    let ghost old_lines = lines.deep_view();
                    let finished = cur;
                    lines.push(finished);
                    cur = String::new();
                    pending_cr = false;
                    proof {
                        assert(lines.deep_view() =~= old_lines.push(finished@));
                    }
                } else {
                    if pending_cr {
                        push_char(&mut cur, '\r');
                        pending_cr = false;
                    }
                    if c == '\r' {
                        pending_cr = true;
                    } else {
                        push_char(&mut cur, c);
                    }
                }
            },
            None => {
                if pending_cr {
                    push_char(&mut cur, '\r');
                }
                proof {
                    assert(input@.take(k) =~= input@);
                }
                if !cur.as_str().is_empty() {
                    let ghost old_lines = lines.deep_view();
                    lines.push(cur);
                    proof {
                        assert(lines.deep_view() =~= old_lines.push(scan_lines(input@).1));
                    }
                }
                return lines;
            },
        }
    }
}

/// No line that `text_lines` yields holds a line feed.
pub proof fn lemma_lines_hold_no_line_feed(s: Seq<char>)
    ensures
        forall|i: int, j: int|
            0 <= i < text_lines(s).len() && 0 <= j < text_lines(s)[i].len() ==> #[trigger] text_lines(s)[i][j] != '\n',
{
    lemma_scan_holds_no_line_feed(s);
}

proof fn lemma_scan_holds_no_line_feed(s: Seq<char>)
    ensures
        forall|i: int, j: int|
            0 <= i < scan_lines(s).0.len() && 0 <= j < scan_lines(s).0[i].len() ==> #[trigger] scan_lines(s).0[i][j] != '\n',
        forall|j: int| 0 <= j < scan_lines(s).1.len() ==> #[trigger] scan_lines(s).1[j] != '\n',
    decreases s.len(),
{
    if s.len() > 0 {
        lemma_scan_holds_no_line_feed(s.drop_last());
        let (done, cur) = scan_lines(s.drop_last());
        if s.last() == '\n' {
            let stripped = strip_cr(cur);
            assert forall|j: int| 0 <= j < stripped.len() implies stripped[j] != '\n' by {
                assert(stripped[j] == cur[j]);
            }
            assert forall|i: int, j: int|
                0 <= i < scan_lines(s).0.len() && 0 <= j < scan_lines(s).0[i].len() implies scan_lines(s).0[i][j] != '\n' by {
                if i < done.len() {
                    assert(scan_lines(s).0[i] == done[i]);
                } else {
                    assert(scan_lines(s).0[i] == stripped);
                }
            }
        } else {
            assert forall|j: int| 0 <= j < scan_lines(s).1.len() implies #[trigger] scan_lines(s).1[j] != '\n' by {
                if j < cur.len() {
                    assert(scan_lines(s).1[j] == cur[j]);
                }
            }
        }
    }
}

/// `s` holds no carriage return.
pub open spec fn no_carriage_return(s: Seq<char>) -> bool {
    forall|i: int| 0 <= i < s.len() ==> #[trigger] s[i] != '\r'
}

proof fn lemma_scan_rejoins(s: Seq<char>)
    requires
        no_carriage_return(s),
    ensures
        scan_lines(s).0.len() == 0 ==> scan_lines(s).1 == s,
        scan_lines(s).0.len() > 0 ==> join_text(scan_lines(s).0, "\n"@) + "\n"@ + scan_lines(s).1 == s,
    decreases s.len(),
{
    reveal_strlit("\n");
    if s.len() > 0 {
        let p = s.drop_last();
        assert(s =~= p.push(s.last()));
        assert(no_carriage_return(p)) by {
            assert forall|i: int| 0 <= i < p.len() implies #[trigger] p[i] != '\r' by {
                assert(p[i] == s[i]);
            }
        }
        lemma_scan_rejoins(p);
        let (done, cur) = scan_lines(p);
        assert(cur.len() > 0 ==> cur.last() != '\r') by {
            if cur.len() > 0 {
                if done.len() == 0 {
                    assert(cur.last() == p[p.len() - 1]);
                } else {
                    let prefix = join_text(done, "\n"@) + "\n"@;
                    assert(p == prefix + cur);
                    assert(cur.last() == p[p.len() - 1]);
                }
            }
        }
        assert(strip_cr(cur) == cur);
        if s.last() == '\n' {
            let nd = done.push(cur);
            if done.len() == 0 {
                assert(nd.len() == 1);
                assert(join_text(nd, "\n"@) == cur);
                assert(join_text(nd, "\n"@) + "\n"@ + Seq::<char>::empty() =~= s);
            } else {
                assert(nd.drop_last() =~= done);
                assert(join_text(nd, "\n"@) == join_text(done, "\n"@) + "\n"@ + cur);
                assert(join_text(nd, "\n"@) + "\n"@ + Seq::<char>::empty() =~= s);
            }
        } else {
            if done.len() == 0 {
                assert(cur.push(s.last()) =~= s);
            } else {
                assert(join_text(done, "\n"@) + "\n"@ + cur.push(s.last()) =~= s);
            }
        }
    }
}

/// For text without carriage returns that does not end in a line feed,
/// joining its lines with line feeds gives the text back.
pub proof fn lemma_lines_rejoin(s: Seq<char>)
    requires
        no_carriage_return(s),
        s.len() == 0 || s.last() != '\n',
    ensures
        join_text(text_lines(s), "\n"@) == s,
{
    lemma_scan_rejoins(s);
    let (done, cur) = scan_lines(s);
    if s.len() == 0 {
        assert(text_lines(s) =~= Seq::<Seq<char>>::empty());
    } else {
        assert(cur.len() > 0) by {
            if cur.len() == 0 {
                if done.len() == 0 {
                    assert(cur == s);
                } else {
                    let prefix = join_text(done, "\n"@) + "\n"@;
                    assert(prefix + cur =~= prefix);
                    assert(s.last() == prefix.last());
                }
            }
        }
        let lines = done.push(cur);
        assert(text_lines(s) == lines);
        if done.len() == 0 {
            assert(join_text(lines, "\n"@) == cur);
        } else {
            assert(lines.drop_last() =~= done);
        }
    }
}

/// `parts` joined with `sep` between neighbours.
pub open spec fn join_text(parts: Seq<Seq<char>>, sep: Seq<char>) -> Seq<char>
    decreases parts.len(),
{
    if parts.len() == 0 {
        Seq::<char>::empty()
    } else if parts.len() == 1 {
        parts[0]
    } else {
        join_text(parts.drop_last(), sep) + sep + parts.last()
    }
}

/// Joins `parts` with `sep` between neighbours (`slice::join`).
pub fn join_strings(parts: &Vec<String>, sep: &str) -> (out: String)
    ensures
        out@ == join_text(parts.deep_view(), sep@),
{
    let mut out = String::new();
    let mut i: usize = 0;
    while i < parts.len()
        invariant
            0 <= i <= parts.len(),
            out@ == join_text(parts.deep_view().take(i as int), sep@),
        decreases parts.len() - i,
    {
        let ghost prefix = parts.deep_view().take(i as int);
        if i > 0 {
            push_text(&mut out, sep);
        }
        push_text(&mut out, parts[i].as_str());
        i = i + 1;
        proof {
            let now = parts.deep_view().take(i as int);
            assert(now.drop_last() =~= prefix);
            assert(now.last() == parts[i - 1]@);
            if i == 1 {
                assert(prefix.len() == 0);
                assert(out@ =~= now[0]);
            }
        }
    }
    proof {
        assert(parts.deep_view().take(parts.len() as int) =~= parts.deep_view());
    }
    out
}

} // verus!
