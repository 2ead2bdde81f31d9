//! Section descriptions as the disassembler's section listing gives them.

use crate::hex::{hex8, push_hex8, push_text, string_of};
use vstd::prelude::*;

verus! {

/// One section of the listing.
#[derive(Debug)]
pub struct RadareMemoryInfo {
    pub name: String,
    pub size: u64,
    pub vsize: u64,
    pub perm: String,
    pub paddr: u64,
    pub vaddr: u64,
}

impl RadareMemoryInfo {
    /// The entry on one line: its name, its permissions, and its place in
    /// the dump and in memory as hexadecimal numbers.
    pub open spec fn text(&self) -> Seq<char> {
        self.name@ + " perms="@ + self.perm@ + " paddr="@ + hex8(self.paddr) + " size="@ + hex8(
            self.size,
        ) + " vaddr="@ + hex8(self.vaddr) + " vsize="@ + hex8(self.vsize)
    }

    /// The entry on one line.
    pub fn to_string(&self) -> (line: String)
        ensures
            line@ == self.text(),
    {
        let mut out: Vec<char> = Vec::new();
        push_text(&mut out, self.name.as_str());
        assert(out@ =~= self.name@);
        push_text(&mut out, " perms=");
        push_text(&mut out, self.perm.as_str());
        push_text(&mut out, " paddr=");
        push_hex8(&mut out, self.paddr);
        push_text(&mut out, " size=");
        push_hex8(&mut out, self.size);
        push_text(&mut out, " vaddr=");
        push_hex8(&mut out, self.vaddr);
        push_text(&mut out, " vsize=");
        push_hex8(&mut out, self.vsize);
        string_of(&out)
    }
}

/// The whole listing, in the order of the file.
#[derive(Debug)]
pub struct RadareMemoryInfos {
    pub items: Vec<RadareMemoryInfo>,
}


/// The characters of a string, in order.
pub fn chars_of(text: &str) -> (v: Vec<char>)
    ensures
        v@ == text@,
{
    let mut v: Vec<char> = Vec::new();
    push_text(&mut v, text);
    assert(v@ =~= text@);
    v
}

/// The index of the first `c` in `s` at or behind `k`; the length of `s`
/// where there is none.
pub open spec fn first_from(s: Seq<char>, c: char, k: int) -> int
    decreases s.len() - k,
{
    if k < 0 || k >= s.len() {
        s.len() as int
    } else if s[k] == c {
        k
    } else {
        first_from(s, c, k + 1)
    }
}

/// The pieces of `s` between the separators `sep`: one more than there are
/// separators, and empty where two separators meet or one stands at an end.
pub open spec fn split(s: Seq<char>, sep: char) -> Seq<Seq<char>>
    decreases s.len(),
{
    let i = first_from(s, sep, 0);
    if 0 <= i < s.len() {
        seq![s.subrange(0, i)] + split(s.subrange(i + 1, s.len() as int), sep)
    } else {
        seq![s]
    }
}

/// Whether `t` begins with `p`.
pub open spec fn starts_with(t: Seq<char>, p: Seq<char>) -> bool {
    t.len() >= p.len() && t.subrange(0, p.len() as int) == p
}

/// What is left of `s` when every `0x` at its start is taken away.
pub open spec fn trim_0x(s: Seq<char>) -> Seq<char>
    decreases s.len(),
{
    if s.len() >= 2 && s[0] == '0' && s[1] == 'x' {
        trim_0x(s.subrange(2, s.len() as int))
    } else {
        s
    }
}

/// The value of a hexadecimal digit, upper or lower case.
pub open spec fn digit_value(c: char) -> Option<nat> {
    if c == '0' {
        Some(0)
    } else if c == '1' {
        Some(1)
    } else if c == '2' {
        Some(2)
    } else if c == '3' {
        Some(3)
    } else if c == '4' {
        Some(4)
    } else if c == '5' {
        Some(5)
    } else if c == '6' {
        Some(6)
    } else if c == '7' {
        Some(7)
    } else if c == '8' {
        Some(8)
    } else if c == '9' {
        Some(9)
    } else if c == 'a' || c == 'A' {
        Some(10)
    } else if c == 'b' || c == 'B' {
        Some(11)
    } else if c == 'c' || c == 'C' {
        Some(12)
    } else if c == 'd' || c == 'D' {
        Some(13)
    } else if c == 'e' || c == 'E' {
        Some(14)
    } else if c == 'f' || c == 'F' {
        Some(15)
    } else {
        None
    }
}

/// The number that hexadecimal digits spell; nothing where one of them is
/// no digit.
pub open spec fn digits_value(s: Seq<char>) -> Option<nat>
    decreases s.len(),
{
    if s.len() == 0 {
        Some(0)
    } else {
        match (digits_value(s.drop_last()), digit_value(s.last())) {
            (Some(v), Some(d)) => Some(16 * v + d),
            _ => None,
        }
    }
}

/// The 64-bit number that `s` spells in hexadecimal: an optional `+`, then
/// one digit at least and digits only, of a value that fits.
pub open spec fn hex_number(s: Seq<char>) -> Option<u64> {
    let digits = if s.len() > 1 && s[0] == '+' {
        s.drop_first()
    } else {
        s
    };
    if digits.len() == 0 {
        None
    } else {
        match digits_value(digits) {
            Some(v) => if v <= u64::MAX {
                Some(v as u64)
            } else {
                None
            },
            None => None,
        }
    }
}

/// Whether a token of a section name carries a number: its key is one of
/// `paddr`, `state`, `allocation` and `type`.
pub open spec fn is_keyed(t: Seq<char>) -> bool {
    starts_with(t, "paddr"@) || starts_with(t, "state"@) || starts_with(t, "allocation"@)
        || starts_with(t, "type"@)
}

/// The number that a keyed token carries: what stands between its first `=`
/// and its second, or its end, read as a hexadecimal number after every `0x`
/// at its start. Nothing where the token has no `=` or no such number.
pub open spec fn token_number(t: Seq<char>) -> Option<u64> {
    let pieces = split(t, '=');
    if pieces.len() >= 2 {
        hex_number(trim_0x(pieces[1]))
    } else {
        None
    }
}

/// The dump offset that the tokens give: that of the last `paddr` token, or
/// zero without one. Nothing where a keyed token carries no number.
pub open spec fn tokens_paddr(tokens: Seq<Seq<char>>) -> Option<u64>
    decreases tokens.len(),
{
    if tokens.len() == 0 {
        Some(0)
    } else {
        match tokens_paddr(tokens.drop_last()) {
            None => None,
            Some(paddr) => if is_keyed(tokens.last()) {
                match token_number(tokens.last()) {
                    Some(v) => if starts_with(tokens.last(), "paddr"@) {
                        Some(v)
                    } else {
                        Some(paddr)
                    },
                    None => None,
                }
            } else {
                Some(paddr)
            },
        }
    }
}

/// The character sequences of the vectors.
pub open spec fn views(vs: Seq<Vec<char>>) -> Seq<Seq<char>> {
    Seq::new(vs.len(), |i: int| vs[i]@)
}

/// Where no `c` stands between `k` and `i`, and `i` is the end of `s` or
/// holds a `c`, the first `c` from `k` on is at `i`.
pub proof fn lemma_first_from(s: Seq<char>, c: char, k: int, i: int)
    requires
        0 <= k <= i <= s.len(),
        forall|j: int| k <= j < i ==> s[j] != c,
        i == s.len() || s[i] == c,
    ensures
        first_from(s, c, k) == i,
    decreases i - k,
{
    if k < i {
        lemma_first_from(s, c, k + 1, i);
    }
}

/// Digits that spell a number spell a number up to any point, and no
/// greater one.
pub proof fn lemma_digits_prefix(s: Seq<char>, k: int)
    requires
        0 <= k <= s.len(),
        digits_value(s) is Some,
    ensures
        digits_value(s.subrange(0, k)) is Some,
        digits_value(s.subrange(0, k))->0 <= digits_value(s)->0,
    decreases s.len() - k,
{
    if k == s.len() {
        assert(s.subrange(0, k) =~= s);
    } else {
        lemma_digits_prefix(s.drop_last(), k);
        assert(s.drop_last().subrange(0, k) =~= s.subrange(0, k));
    }
}

/// The pieces of `v` between the separators `sep`.
pub fn split_chars(v: &Vec<char>, sep: char) -> (r: Vec<Vec<char>>)
    ensures
        views(r@) == split(v@, sep),
{
    let mut done: Vec<Vec<char>> = Vec::new();
    let mut cur: Vec<char> = Vec::new();
    let mut start: usize = 0;
    let mut i: usize = 0;
    let n: usize = v.len();
    proof {
        assert(v@.subrange(0, n as int) =~= v@);
        assert(views(done@) =~= Seq::<Seq<char>>::empty());
        assert(views(done@) + split(v@, sep) =~= split(v@, sep));
    }
    while i < n
        invariant
            n == v@.len(),
            start <= i <= n,
            cur@ == v@.subrange(start as int, i as int),
            forall|j: int| start <= j < i ==> v@[j] != sep,
            split(v@, sep) == views(done@) + split(v@.subrange(start as int, n as int), sep),
        decreases n - i,
    {
        let c: char = v[i];
        if c == sep {
            proof {
                let rest = v@.subrange(start as int, n as int);
                lemma_first_from(rest, sep, 0, i - start);
                assert(rest.subrange(0, i - start) =~= cur@);
                assert(rest.subrange(i - start + 1, rest.len() as int) =~= v@.subrange(
                    i + 1,
                    n as int,
                ));
                let tail = split(v@.subrange(i + 1, n as int), sep);
                assert(views(done@.push(cur)) =~= views(done@).push(cur@));
                assert(views(done@) + (seq![cur@] + tail) =~= views(done@).push(cur@) + tail);
            }
            done.push(cur);
            cur = Vec::new();
            start = i + 1;
            proof {
                assert(cur@ =~= v@.subrange(start as int, start as int));
            }
        } else {
            cur.push(c);
            assert(cur@ =~= v@.subrange(start as int, i + 1));
        }
        i += 1;
    }
    proof {
        let rest = v@.subrange(start as int, n as int);
        lemma_first_from(rest, sep, 0, n - start);
        assert(rest =~= cur@);
        assert(views(done@.push(cur)) =~= views(done@).push(cur@));
        assert(views(done@) + seq![cur@] =~= views(done@).push(cur@));
    }
    done.push(cur);
    done
}

/// Tells whether `t` begins with `prefix`.
pub fn has_prefix(t: &Vec<char>, prefix: &str) -> (b: bool)
    ensures
        b == starts_with(t@, prefix@),
{
    let n: usize = prefix.unicode_len();
    if t.len() < n {
        return false;
    }
    let mut i: usize = 0;
    while i < n
        invariant
            n == prefix@.len(),
            n <= t@.len(),
            i <= n,
            forall|j: int| 0 <= j < i ==> t@[j] == prefix@[j],
        decreases n - i,
    {
        if t[i] != prefix.get_char(i) {
            assert(t@.subrange(0, n as int)[i as int] != prefix@[i as int]);
            return false;
        }
        i += 1;
    }
    assert(t@.subrange(0, n as int) =~= prefix@);
    true
}

fn digit_of(c: char) -> (r: Option<u64>)
    ensures
        r is Some <==> digit_value(c) is Some,
        r matches Some(d) ==> d == digit_value(c)->0 && d < 16,
{
    if c == '0' {
        Some(0)
    } else if c == '1' {
        Some(1)
    } else if c == '2' {
        Some(2)
    } else if c == '3' {
        Some(3)
    } else if c == '4' {
        Some(4)
    } else if c == '5' {
        Some(5)
    } else if c == '6' {
        Some(6)
    } else if c == '7' {
        Some(7)
    } else if c == '8' {
        Some(8)
    } else if c == '9' {
        Some(9)
    } else if c == 'a' || c == 'A' {
        Some(10)
    } else if c == 'b' || c == 'B' {
        Some(11)
    } else if c == 'c' || c == 'C' {
        Some(12)
    } else if c == 'd' || c == 'D' {
        Some(13)
    } else if c == 'e' || c == 'E' {
        Some(14)
    } else if c == 'f' || c == 'F' {
        Some(15)
    } else {
        None
    }
}

/// The 64-bit number that the characters of `t` from `from` on spell in
/// hexadecimal, after every `0x` at their start.
pub fn parse_hex(t: &Vec<char>, from: usize) -> (r: Option<u64>)
    requires
        from <= t@.len(),
    ensures
        r == hex_number(trim_0x(t@.subrange(from as int, t@.len() as int))),
{
    let n: usize = t.len();
    let mut lo: usize = from;
    while n - lo >= 2 && t[lo] == '0' && t[lo + 1] == 'x'
        invariant
            n == t@.len(),
            from <= lo <= n,
            trim_0x(t@.subrange(from as int, n as int)) == trim_0x(
                t@.subrange(lo as int, n as int),
            ),
        decreases n - lo,
    {
        proof {
            let cur = t@.subrange(lo as int, n as int);
            assert(cur.subrange(2, cur.len() as int) =~= t@.subrange(lo + 2, n as int));
        }
        lo += 2;
    }
    let ghost body = t@.subrange(lo as int, n as int);
    assert(trim_0x(body) == body);
    if n - lo > 1 && t[lo] == '+' {
        lo += 1;
    }
    let ghost digits = t@.subrange(lo as int, n as int);
    proof {
        if body.len() > 1 && body[0] == '+' {
            assert(digits =~= body.drop_first());
        } else {
            assert(digits =~= body);
        }
    }
    if lo == n {
        return None;
    }
    let mut acc: u64 = 0;
    let mut i: usize = lo;
    assert(digits.subrange(0, 0) =~= Seq::<char>::empty());
    while i < n
        invariant
            n == t@.len(),
            lo <= i <= n,
            from <= n,
            trim_0x(t@.subrange(from as int, n as int)) == body,
            digits == t@.subrange(lo as int, n as int),
            digits.len() > 0,
            digits == if body.len() > 1 && body[0] == '+' {
                body.drop_first()
            } else {
                body
            },
            digits_value(digits.subrange(0, i - lo)) == Some(acc as nat),
        decreases n - i,
    {
        let ghost upto = digits.subrange(0, i - lo + 1);
        proof {
            assert(upto.drop_last() =~= digits.subrange(0, i - lo));
            assert(upto.last() == t@[i as int]);
        }
        match digit_of(t[i]) {
            None => {
                proof {
                    assert(digits_value(upto) is None);
                    if digits_value(digits) is Some {
                        lemma_digits_prefix(digits, i - lo + 1);
                    }
                    assert(hex_number(body) is None);
                }
                return None;
            },
            Some(d) => {
                if acc > (u64::MAX - d) / 16 {
                    proof {
                        assert(digits_value(upto) == Some((16 * acc + d) as nat));
                        if digits_value(digits) is Some {
                            lemma_digits_prefix(digits, i - lo + 1);
                        }
                        assert(hex_number(body) is None);
                    }
                    return None;
                }
                acc = acc * 16 + d;
            },
        }
        i += 1;
    }
    assert(digits.subrange(0, n - lo) =~= digits);
    Some(acc)
}

/// The number that a keyed token carries.
pub fn parse_token_number(t: &Vec<char>) -> (r: Option<u64>)
    ensures
        r == token_number(t@),
{
    let n: usize = t.len();
    let mut i: usize = 0;
    while i < n && t[i] != '='
        invariant
            n == t@.len(),
            i <= n,
            forall|j: int| 0 <= j < i ==> t@[j] != '=',
        decreases n - i,
    {
        i += 1;
    }
    proof {
        lemma_first_from(t@, '=', 0, i as int);
    }
    if i == n {
        return None;
    }
    let from: usize = i + 1;
    let mut end: usize = from;
    while end < n && t[end] != '='
        invariant
            n == t@.len(),
            from <= end <= n,
            forall|j: int| from <= j < end ==> t@[j] != '=',
        decreases n - end,
    {
        end += 1;
    }
    let mut piece: Vec<char> = Vec::new();
    let mut k: usize = from;
    while k < end
        invariant
            from <= k <= end <= t@.len(),
            piece@ == t@.subrange(from as int, k as int),
        decreases end - k,
    {
        piece.push(t[k]);
        assert(piece@ =~= t@.subrange(from as int, k + 1));
        k += 1;
    }
    proof {
        let rest = t@.subrange(from as int, n as int);
        lemma_first_from(rest, '=', 0, end - from);
        assert(rest.subrange(0, end - from) =~= piece@);
        assert(split(rest, '=')[0] == piece@);
        assert(split(t@, '=')[1] == split(rest, '=')[0]);
        assert(piece@.subrange(0, piece@.len() as int) =~= piece@);
    }
    parse_hex(&piece, 0)
}

/// The section that a section name of the listing describes: the last token
/// of the name as its name, and the dump offset that its `paddr` token
/// gives; all else zero or empty. Nothing where a token with one of the keys
/// `paddr`, `state`, `allocation` and `type` carries no hexadecimal number.
pub fn parse_radare_name(info: &String) -> (r: Option<RadareMemoryInfo>)
    ensures
        r is Some <==> tokens_paddr(split(info@, ' ')) is Some,
        r matches Some(m) ==> {
            &&& m.name@ == split(info@, ' ').last()
            &&& m.paddr == tokens_paddr(split(info@, ' '))->0
            &&& m.size == 0
            &&& m.vsize == 0
            &&& m.vaddr == 0
            &&& m.perm@.len() == 0
        },
{
    let chars = chars_of(info.as_str());
    let tokens = split_chars(&chars, ' ');
    let ghost all = split(info@, ' ');
    let mut paddr: u64 = 0;
    let mut i: usize = 0;
    assert(all.subrange(0, 0) =~= Seq::<Seq<char>>::empty());
    while i < tokens.len()
        invariant
            i <= tokens@.len(),
            views(tokens@) == all,
            all == split(info@, ' '),
            tokens_paddr(all.subrange(0, i as int)) == Some(paddr),
        decreases tokens@.len() - i,
    {
        let t: &Vec<char> = &tokens[i];
        proof {
            assert(all.subrange(0, i + 1).drop_last() =~= all.subrange(0, i as int));
            assert(all.subrange(0, i + 1).last() == t@);
        }
        let is_paddr: bool = has_prefix(t, "paddr");
        if is_paddr || has_prefix(t, "state") || has_prefix(t, "allocation") || has_prefix(
            t,
            "type",
        ) {
            match parse_token_number(t) {
                Some(v) => {
                    if is_paddr {
                        paddr = v;
                    }
                },
                None => {
                    proof {
                        assert(is_keyed(t@));
                        assert(tokens_paddr(all.subrange(0, i + 1)) is None);
                        lemma_tokens_fail(all, i + 1);
                    }
                    return None;
                },
            }
        }
        i += 1;
    }
    assert(all.subrange(0, tokens@.len() as int) =~= all);
    assert(all.len() > 0);
    let last: &Vec<char> = &tokens[tokens.len() - 1];
    Some(
        RadareMemoryInfo {
            name: string_of(last),
            size: 0,
            vsize: 0,
            paddr,
            perm: String::new(),
            vaddr: 0,
        },
    )
}

/// Once a keyed token carries no number, no later token mends it.
pub proof fn lemma_tokens_fail(tokens: Seq<Seq<char>>, k: int)
    requires
        0 <= k <= tokens.len(),
        tokens_paddr(tokens.subrange(0, k)) is None,
    ensures
        tokens_paddr(tokens) is None,
    decreases tokens.len() - k,
{
    if k == tokens.len() {
        assert(tokens.subrange(0, k) =~= tokens);
    } else {
        assert(tokens.drop_last().subrange(0, k) =~= tokens.subrange(0, k));
        lemma_tokens_fail(tokens.drop_last(), k);
    }
}

} // verus!
