//! Character-level text handling shared by the path, device-name and user
//! database code: splitting on a separator, line splitting, decimal numbers
//! and joining.
use vstd::prelude::*;
use vstd::string::StrSliceExecFns;

verus! {

/// Index of the first occurrence of `c` in `s`.
pub open spec fn find_char(s: Seq<char>, c: char) -> Option<int>
    decreases s.len(),
{
    if s.len() == 0 {
        None
    } else if s[0] == c {
        Some(0)
    } else {
        match find_char(s.drop_first(), c) {
            Some(i) => Some(i + 1),
            None => None,
        }
    }
}

/// The pieces of `s` between occurrences of `sep`, as `str::split` gives them:
/// always at least one piece, empty pieces kept.
pub open spec fn split_on(s: Seq<char>, sep: char) -> Seq<Seq<char>>
    decreases s.len(),
{
    match find_char(s, sep) {
        Some(i) => if 0 <= i < s.len() {
            seq![s.take(i)] + split_on(s.skip(i + 1), sep)
        } else {
            seq![s]
        },
        None => seq![s],
    }
}

/// `s` without one trailing carriage return.
pub open spec fn strip_cr(s: Seq<char>) -> Seq<char> {
    if s.len() > 0 && s.last() == '\r' {
        s.drop_last()
    } else {
        s
    }
}

/// The lines of `s` as `str::lines` gives them: split at each line feed, a
/// carriage return right before a line feed dropped, and no empty last line
/// after a final line feed.
pub open spec fn split_lines(s: Seq<char>) -> Seq<Seq<char>> {
    let pieces = split_on(s, '\n');
    let n = pieces.len();
    Seq::new((n - 1) as nat, |i: int| strip_cr(pieces[i])) + if pieces[n - 1].len() > 0 {
        seq![pieces[n - 1]]
    } else {
        Seq::<Seq<char>>::empty()
    }
}

/// The pieces of a split that are not empty.
pub open spec fn nonempty_pieces(pieces: Seq<Seq<char>>) -> Seq<Seq<char>> {
    pieces.filter(|p: Seq<char>| p.len() > 0)
}

/// `pieces` joined with `sep` between each two of them.
pub open spec fn join_with(pieces: Seq<Seq<char>>, sep: Seq<char>) -> Seq<char>
    decreases pieces.len(),
{
    if pieces.len() == 0 {
        Seq::empty()
    } else if pieces.len() == 1 {
        pieces[0]
    } else {
        join_with(pieces.drop_last(), sep) + sep + pieces.last()
    }
}

/// The views of a vector of strings.
pub open spec fn views(strings: Seq<String>) -> Seq<Seq<char>> {
    strings.map_values(|s: String| s@)
}

pub open spec fn digit_char(d: nat) -> char {
    if d == 0 { '0' }
    else if d == 1 { '1' }
    else if d == 2 { '2' }
    else if d == 3 { '3' }
    else if d == 4 { '4' }
    else if d == 5 { '5' }
    else if d == 6 { '6' }
    else if d == 7 { '7' }
    else if d == 8 { '8' }
    else { '9' }
}

/// The decimal numeral of `n`, without leading zeros.
pub open spec fn decimal(n: nat) -> Seq<char>
    decreases n,
{
    if n < 10 {
        seq![digit_char(n)]
    } else {
        decimal(n / 10).push(digit_char(n % 10))
    }
}

pub open spec fn is_digit(c: char) -> bool {
    '0' <= c <= '9'
}

pub open spec fn digit_value(c: char) -> nat {
    (c as nat - '0' as nat) as nat
}

/// The number that the decimal digits `s` spell.
pub open spec fn digits_value(s: Seq<char>) -> nat
    decreases s.len(),
{
    if s.len() == 0 {
        0
    } else {
        digits_value(s.drop_last()) * 10 + digit_value(s.last())
    }
}

/// What `str::parse` gives for an unsigned integer type whose largest value
/// is `max`: an optional leading `+`, then at least one decimal digit, and a
/// value no larger than `max`.
pub open spec fn parse_unsigned(s: Seq<char>, max: nat) -> Option<nat> {
    let body = unsigned_body(s);
    if body.len() > 0 && all_digits(body) && digits_value(body) <= max {
        Some(digits_value(body))
    } else {
        None
    }
}

/// `s` without one leading `+`.
pub open spec fn unsigned_body(s: Seq<char>) -> Seq<char> {
    if s.len() > 0 && s[0] == '+' {
        s.drop_first()
    } else {
        s
    }
}

pub open spec fn all_digits(s: Seq<char>) -> bool {
    forall|i: int| 0 <= i < s.len() ==> is_digit(#[trigger] s[i])
}

/// The characters of `s`, one by one.
pub fn chars_of(s: &str) -> (chars: Vec<char>)
    ensures
        chars@ == s@,
{
    let mut chars: Vec<char> = Vec::new();
    for c in it: s.chars()
        invariant
            chars@ == it.seq().take(it.index() as int),
            it.seq() == s@,
    {
        chars.push(c);
    }
    chars
}

proof fn lemma_find_char_at(s: Seq<char>, c: char, i: int)
    requires
        0 <= i < s.len(),
        s[i] == c,
        forall|k: int| 0 <= k < i ==> s[k] != c,
    ensures
        find_char(s, c) == Some(i),
    decreases i,
{
    if i > 0 {
        lemma_find_char_at(s.drop_first(), c, i - 1);
    }
}

proof fn lemma_find_char_none(s: Seq<char>, c: char)
    requires
        forall|k: int| 0 <= k < s.len() ==> s[k] != c,
    ensures
        find_char(s, c) is None,
    decreases s.len(),
{
    if s.len() > 0 {
        lemma_find_char_none(s.drop_first(), c);
    }
}

/// Splits `s` at every `sep`, as `str::split` does.
pub fn split_char(s: &str, sep: char) -> (pieces: Vec<String>)
    ensures
        views(pieces@) == split_on(s@, sep),
{
    let chars = chars_of(s);
    let n = chars.len();
    let mut pieces: Vec<String> = Vec::new();
    let mut start: usize = 0;
    let mut i: usize = 0;
    assert(s@.skip(0) =~= s@);
    while i < n
        invariant
            chars@ == s@,
            n == chars.len(),
            start <= i <= n,
            forall|k: int| start <= k < i ==> chars@[k] != sep,
            views(pieces@) + split_on(s@.skip(start as int), sep) == split_on(s@, sep),
        decreases n - i,
    {
        if chars[i] == sep {
            let piece = s.substring_char(start, i).to_owned();
            proof {
                let t = s@.skip(start as int);
                lemma_find_char_at(t, sep, i - start);
                assert(t.take(i - start) =~= s@.subrange(start as int, i as int));
                assert(t.skip(i - start + 1) =~= s@.skip(i + 1));
                assert(views(pieces@.push(piece)) =~= views(pieces@).push(piece@));
                assert(views(pieces@).push(piece@) + split_on(s@.skip(i + 1), sep) =~= views(
                    pieces@,
                ) + split_on(t, sep));
            }
            pieces.push(piece);
            start = i + 1;
        }
        i = i + 1;
    }
    let last = s.substring_char(start, n).to_owned();
    proof {
        let t = s@.skip(start as int);
        lemma_find_char_none(t, sep);
        assert(t =~= s@.subrange(start as int, n as int));
        assert(views(pieces@.push(last)) =~= views(pieces@).push(last@));
        assert(views(pieces@).push(last@) =~= views(pieces@) + split_on(t, sep));
    }
    pieces.push(last);
    pieces
}

/// The lines of `s`, as `str::lines` gives them.
pub fn lines(s: &str) -> (result: Vec<String>)
    ensures
        views(result@) == split_lines(s@),
{
    let pieces = split_char(s, '\n');
    proof {
        lemma_split_on_nonempty(s@, '\n');
    }
    let n = pieces.len();
    let mut result: Vec<String> = Vec::new();
    let mut k: usize = 0;
    while k + 1 < n
        invariant
            views(pieces@) == split_on(s@, '\n'),
            n == pieces.len(),
            n >= 1,
            k + 1 <= n,
            views(result@) =~= Seq::new(k as nat, |i: int| strip_cr(views(pieces@)[i])),
        decreases n - k,
    {
        let line = strip_trailing_cr(&pieces[k]);
        proof {
            assert(views(result@.push(line)) =~= views(result@).push(line@));
        }
        result.push(line);
        k = k + 1;
    }
    let last = &pieces[n - 1];
    let last_len = last.as_str().unicode_len();
    if last_len > 0 {
        let kept = last.as_str().to_owned();
        proof {
            assert(views(result@.push(kept)) =~= views(result@).push(kept@));
        }
        result.push(kept);
    }
    proof {
        assert(views(result@) =~= split_lines(s@));
    }
    result
}

/// A split always yields at least one piece.
pub proof fn lemma_split_on_nonempty(s: Seq<char>, sep: char)
    ensures
        split_on(s, sep).len() >= 1,
    decreases s.len(),
{
    match find_char(s, sep) {
        Some(i) => if 0 <= i < s.len() {
            lemma_split_on_nonempty(s.skip(i + 1), sep);
        },
        None => {},
    }
}

fn strip_trailing_cr(s: &String) -> (r: String)
    ensures
        r@ == strip_cr(s@),
{
    let len = s.as_str().unicode_len();
    if len > 0 && s.as_str().get_char(len - 1) == '\r' {
        s.as_str().substring_char(0, len - 1).to_owned()
    } else {
        s.as_str().to_owned()
    }
}

/// Joins `pieces` with `sep` between each two of them.
pub fn join(pieces: &Vec<String>, sep: &str) -> (joined: String)
    ensures
        joined@ == join_with(views(pieces@), sep@),
{
    let mut joined = String::new();
    let mut i: usize = 0;
    while i < pieces.len()
        invariant
            0 <= i <= pieces.len(),
            joined@ == join_with(views(pieces@).take(i as int), sep@),
        decreases pieces.len() - i,
    {
        let ghost before = joined@;
        if i > 0 {
            joined.append(sep);
        }
        joined.append(pieces[i].as_str());
        proof {
            let v = views(pieces@);
            assert(v.take(i + 1).drop_last() =~= v.take(i as int));
            if i == 0 {
                assert(joined@ =~= v.take(1)[0]);
            }
        }
        i = i + 1;
    }
    proof {
        assert(views(pieces@).take(pieces.len() as int) =~= views(pieces@));
    }
    joined
}

/// The one-character string holding the digit `d`.
fn digit_string(d: u64) -> (s: String)
    requires
        d < 10,
    ensures
        s@ == seq![digit_char(d as nat)],
{
    let digits = "0123456789";
    proof {
        reveal_strlit("0123456789");
    }
    let s = digits.substring_char(d as usize, (d + 1) as usize).to_owned();
    proof {
        assert(s@ =~= seq![digit_char(d as nat)]);
    }
    s
}

/// The decimal numeral of `n`.
pub fn decimal_string(n: u64) -> (s: String)
    ensures
        s@ == decimal(n as nat),
    decreases n,
{
    if n < 10 {
        digit_string(n)
    } else {
        let mut s = decimal_string(n / 10);
        let d = digit_string(n % 10);
        s.append(d.as_str());
        s
    }
}

/// The octal numeral of `n`, without leading zeros.
pub open spec fn octal(n: nat) -> Seq<char>
    decreases n,
{
    if n < 8 {
        seq![digit_char(n)]
    } else {
        octal(n / 8).push(digit_char(n % 8))
    }
}

/// The octal numeral of `n`.
pub fn octal_string(n: u64) -> (s: String)
    ensures
        s@ == octal(n as nat),
    decreases n,
{
    if n < 8 {
        digit_string(n)
    } else {
        let mut s = octal_string(n / 8);
        let d = digit_string(n % 8);
        s.append(d.as_str());
        s
    }
}

/// Parses `s` as an unsigned number no larger than `max`, as `str::parse`
/// does for an unsigned integer type of that range.
pub fn parse_unsigned_str(s: &str, max: u64) -> (result: Option<u64>)
    ensures
        match parse_unsigned(s@, max as nat) {
            Some(v) => result == Some(v as u64),
            None => result is None,
        },
{
    let chars = chars_of(s);
    let n = chars.len();
    let mut i: usize = 0;
    if n > 0 && chars[0] == '+' {
        i = 1;
    }
    let ghost body = unsigned_body(s@);
    proof {
        assert(body =~= s@.skip(i as int));
    }
    if i == n {
        return None;
    }
    let start = i;
    let mut value: u64 = 0;
    while i < n
        invariant
            chars@ == s@,
            n == chars.len(),
            start <= i <= n,
            body =~= s@.skip(start as int),
            body == unsigned_body(s@),
            forall|k: int| start <= k < i ==> is_digit(#[trigger] s@[k]),
            value == digits_value(s@.subrange(start as int, i as int)),
            value <= max,
        decreases n - i,
    {
        let c = chars[i];
        if !('0' <= c && c <= '9') {
            proof {
                assert(body[i - start] == s@[i as int]);
                assert(!is_digit(body[i - start]));
                assert(!all_digits(body));
                assert(parse_unsigned(s@, max as nat) is None);
            }
            return None;
        }
        let d = (c as u32 - '0' as u32) as u64;
        proof {
            let sub = s@.subrange(start as int, i + 1);
            assert(sub.drop_last() =~= s@.subrange(start as int, i as int));
            assert(digits_value(sub) == value * 10 + d);
        }
        let next: u128 = value as u128 * 10 + d as u128;
        if next > max as u128 {
            proof {
                if all_digits(body) {
                    lemma_digits_value_prefix_bound(body, (i - start + 1) as int);
                    assert(body.take(i - start + 1) =~= s@.subrange(start as int, i + 1));
                    assert(digits_value(body) > max);
                }
                assert(parse_unsigned(s@, max as nat) is None);
            }
            return None;
        }
        value = next as u64;
        i = i + 1;
    }
    proof {
        assert(s@.subrange(start as int, n as int) =~= body);
    }
    Some(value)
}

/// The value of a prefix of digits never exceeds the value of the whole.
proof fn lemma_digits_value_prefix_bound(s: Seq<char>, k: int)
    requires
        0 <= k <= s.len(),
        forall|i: int| 0 <= i < s.len() ==> is_digit(#[trigger] s[i]),
    ensures
        digits_value(s.take(k)) <= digits_value(s),
    decreases s.len(),
{
    if k < s.len() {
        lemma_digits_value_prefix_bound(s.drop_last(), k);
        assert(s.drop_last().take(k) =~= s.take(k));
    } else {
        assert(s.take(k) =~= s);
    }
}

/// `s` holds no `c`.
pub open spec fn lacks_char(s: Seq<char>, c: char) -> bool {
    forall|k: int| 0 <= k < s.len() ==> s[k] != c
}

/// `find_char` finds the first `c`, and nothing only where there is none.
proof fn lemma_find_char(s: Seq<char>, c: char)
    ensures
        find_char(s, c) matches Some(i) ==> 0 <= i < s.len() && s[i] == c && forall|k: int| 0 <= k < i ==> s[k] != c,
        find_char(s, c) is None ==> lacks_char(s, c),
    decreases s.len(),
{
    if s.len() > 0 && s[0] != c {
        lemma_find_char(s.drop_first(), c);
        if let Some(i) = find_char(s.drop_first(), c) {
            assert forall|k: int| 0 <= k < i + 1 implies s[k] != c by {
                if k > 0 {
                    assert(s[k] == s.drop_first()[k - 1]);
                }
            }
        } else {
            assert forall|k: int| 0 <= k < s.len() implies s[k] != c by {
                if k > 0 {
                    assert(s[k] == s.drop_first()[k - 1]);
                }
            }
        }
    }
}

/// Splitting `x`, a separator and a last piece free of separators gives the
/// pieces of `x` followed by that last piece.
pub proof fn lemma_split_on_append(x: Seq<char>, sep: char, y: Seq<char>)
    requires
        lacks_char(y, sep),
    ensures
        split_on(x + seq![sep] + y, sep) == split_on(x, sep).push(y),
    decreases x.len(),
{
    let s = x + seq![sep] + y;
    lemma_find_char(x, sep);
    match find_char(x, sep) {
        Some(i) => {
            assert forall|k: int| 0 <= k < i implies s[k] != sep by {
                assert(s[k] == x[k]);
            }
            lemma_find_char_at(s, sep, i);
            let rest = x.skip(i + 1);
            assert(s.take(i) =~= x.take(i));
            assert(s.skip(i + 1) =~= rest + seq![sep] + y);
            lemma_split_on_append(rest, sep, y);
            assert(split_on(s, sep) =~= split_on(x, sep).push(y));
        },
        None => {
            assert forall|k: int| 0 <= k < x.len() implies s[k] != sep by {
                assert(s[k] == x[k]);
            }
            lemma_find_char_at(s, sep, x.len() as int);
            assert(s.take(x.len() as int) =~= x);
            assert(s.skip(x.len() as int + 1) =~= y);
            lemma_find_char_none(y, sep);
            assert(split_on(y, sep) == seq![y]);
            assert(split_on(x, sep) == seq![x]);
            assert(split_on(s, sep) == seq![x] + split_on(y, sep));
            assert(split_on(s, sep) =~= split_on(x, sep).push(y));
        },
    }
}

/// Joining pieces free of the separator and splitting the result at it
/// gives the pieces back.
pub proof fn lemma_split_join(pieces: Seq<Seq<char>>, sep: char)
    requires
        pieces.len() >= 1,
        forall|i: int| 0 <= i < pieces.len() ==> lacks_char(#[trigger] pieces[i], sep),
    ensures
        split_on(join_with(pieces, seq![sep]), sep) == pieces,
    decreases pieces.len(),
{
    if pieces.len() == 1 {
        lemma_find_char_none(pieces[0], sep);
        assert(split_on(pieces[0], sep) =~= pieces);
    } else {
        let front = pieces.drop_last();
        assert forall|i: int| 0 <= i < front.len() implies lacks_char(#[trigger] front[i], sep) by {
            assert(front[i] == pieces[i]);
        }
        lemma_split_join(front, sep);
        assert(lacks_char(pieces[pieces.len() - 1], sep));
        lemma_split_on_append(join_with(front, seq![sep]), sep, pieces.last());
        assert(front.push(pieces.last()) =~= pieces);
    }
}

/// Pieces free of `c`, joined with a separator free of `c`, hold no `c`.
pub proof fn lemma_join_lacks(pieces: Seq<Seq<char>>, sep: Seq<char>, c: char)
    requires
        lacks_char(sep, c),
        forall|i: int| 0 <= i < pieces.len() ==> lacks_char(#[trigger] pieces[i], c),
    ensures
        lacks_char(join_with(pieces, sep), c),
    decreases pieces.len(),
{
    if pieces.len() > 1 {
        let front = pieces.drop_last();
        assert forall|i: int| 0 <= i < front.len() implies lacks_char(#[trigger] front[i], c) by {
            assert(front[i] == pieces[i]);
        }
        lemma_join_lacks(front, sep, c);
        assert(lacks_char(pieces[pieces.len() - 1], c));
        let a = join_with(front, sep);
        let j = join_with(pieces, sep);
        assert forall|k: int| 0 <= k < j.len() implies j[k] != c by {
            if k < a.len() {
                assert(j[k] == a[k]);
            } else if k < a.len() + sep.len() {
                assert(j[k] == sep[k - a.len()]);
            } else {
                assert(j[k] == pieces.last()[k - a.len() - sep.len()]);
            }
        }
    } else if pieces.len() == 1 {
        assert(lacks_char(pieces[0], c));
    }
}

/// The digit a `digit_char` writes reads back as its value.
proof fn lemma_digit_char(d: nat)
    requires
        d < 10,
    ensures
        is_digit(digit_char(d)),
        digit_value(digit_char(d)) == d,
{
}

/// The decimal numeral of `n` is a nonempty run of digits that spells `n`.
pub proof fn lemma_decimal_digits(n: nat)
    ensures
        decimal(n).len() >= 1,
        all_digits(decimal(n)),
        digits_value(decimal(n)) == n,
    decreases n,
{
    if n < 10 {
        lemma_digit_char(n);
        assert(decimal(n).drop_last() =~= Seq::<char>::empty());
        assert(decimal(n).last() == digit_char(n));
        assert(digits_value(Seq::<char>::empty()) == 0);
    } else {
        lemma_decimal_digits(n / 10);
        lemma_digit_char(n % 10);
        let s = decimal(n);
        assert(s.drop_last() =~= decimal(n / 10));
        assert(s.last() == digit_char(n % 10));
        assert(digits_value(s) == digits_value(decimal(n / 10)) * 10 + digit_value(digit_char(n % 10)));
        assert((n / 10) * 10 + n % 10 == n);
        assert forall|i: int| 0 <= i < s.len() implies is_digit(#[trigger] s[i]) by {
            if i < s.len() - 1 {
                assert(s[i] == decimal(n / 10)[i]);
            }
        }
    }
}

/// A number's decimal numeral parses back as the number, where it fits.
pub proof fn lemma_parse_decimal(n: nat, max: nat)
    requires
        n <= max,
    ensures
        parse_unsigned(decimal(n), max) == Some(n),
        forall|c: char| !is_digit(c) ==> lacks_char(decimal(n), c),
{
    lemma_decimal_digits(n);
    assert(is_digit(decimal(n)[0]));
    assert(unsigned_body(decimal(n)) == decimal(n));
}

} // verus!

verus! {

/// Lexicographic order of character sequences, by code point: the order of
/// `String`s, whose byte order agrees with it.
pub open spec fn seq_lt(a: Seq<char>, b: Seq<char>) -> bool
    decreases a.len(),
{
    if a.len() == 0 {
        b.len() > 0
    } else if b.len() == 0 {
        false
    } else if a[0] < b[0] {
        true
    } else if a[0] == b[0] {
        seq_lt(a.drop_first(), b.drop_first())
    } else {
        false
    }
}

/// No sequence comes before itself.
pub proof fn lemma_seq_lt_irreflexive(a: Seq<char>)
    ensures
        !seq_lt(a, a),
    decreases a.len(),
{
    if a.len() > 0 {
        lemma_seq_lt_irreflexive(a.drop_first());
    }
}

/// The order is transitive.
pub proof fn lemma_seq_lt_transitive(a: Seq<char>, b: Seq<char>, c: Seq<char>)
    requires
        seq_lt(a, b),
        seq_lt(b, c),
    ensures
        seq_lt(a, c),
    decreases a.len(),
{
    if a.len() > 0 && b.len() > 0 && c.len() > 0 && a[0] == b[0] && b[0] == c[0] {
        lemma_seq_lt_transitive(a.drop_first(), b.drop_first(), c.drop_first());
    }
}

/// Two different sequences are ordered one way or the other.
pub proof fn lemma_seq_lt_total(a: Seq<char>, b: Seq<char>)
    requires
        a != b,
    ensures
        seq_lt(a, b) || seq_lt(b, a),
    decreases a.len(),
{
    if a.len() > 0 && b.len() > 0 && a[0] == b[0] {
        if a.drop_first() == b.drop_first() {
            assert(a =~= seq![a[0]] + a.drop_first());
            assert(b =~= seq![b[0]] + b.drop_first());
        }
        lemma_seq_lt_total(a.drop_first(), b.drop_first());
    } else if a.len() == 0 && b.len() == 0 {
        assert(a =~= b);
    }
}

/// Whether `a` sorts before `b`.
pub fn str_lt(a: &str, b: &str) -> (lt: bool)
    ensures
        lt == seq_lt(a@, b@),
{
    let x = chars_of(a);
    let y = chars_of(b);
    let mut i: usize = 0;
    assert(a@.skip(0) =~= a@ && b@.skip(0) =~= b@);
    while i < x.len() && i < y.len()
        invariant
            x@ == a@,
            y@ == b@,
            i <= x.len(),
            i <= y.len(),
            seq_lt(a@, b@) == seq_lt(a@.skip(i as int), b@.skip(i as int)),
        decreases x.len() - i,
    {
        let c = x[i];
        let d = y[i];
        if c < d {
            return true;
        }
        if c != d {
            return false;
        }
        proof {
            assert(a@.skip(i as int).drop_first() =~= a@.skip(i + 1));
            assert(b@.skip(i as int).drop_first() =~= b@.skip(i + 1));
        }
        i = i + 1;
    }
    i < y.len()
}

/// Whether the two strings hold the same characters.
pub fn str_eq(a: &str, b: &str) -> (eq: bool)
    ensures
        eq == (a@ == b@),
{
    let x = chars_of(a);
    let y = chars_of(b);
    if x.len() != y.len() {
        return false;
    }
    let mut i: usize = 0;
    while i < x.len()
        invariant
            x@ == a@,
            y@ == b@,
            x.len() == y.len(),
            i <= x.len(),
            forall|k: int| 0 <= k < i ==> a@[k] == b@[k],
        decreases x.len() - i,
    {
        if x[i] != y[i] {
            return false;
        }
        i = i + 1;
    }
    assert(a@ =~= b@);
    true
}

/// A record that a name identifies within a sorted collection.
pub trait Named {
    spec fn spec_name(&self) -> Seq<char>;

    fn name_str(&self) -> (s: &str)
        ensures
            s@ == self.spec_name();
}

/// The names of the records, in order.
pub open spec fn names_of<E: Named>(entries: Seq<E>) -> Seq<Seq<char>> {
    entries.map_values(|e: E| e.spec_name())
}

/// Names in strictly increasing order: sorted, and none twice.
pub open spec fn sorted_names(names: Seq<Seq<char>>) -> bool {
    forall|i: int, j: int| 0 <= i < j < names.len() ==> seq_lt(#[trigger] names[i], #[trigger] names[j])
}

/// Sorted names hold each name once.
pub proof fn lemma_sorted_names_distinct(names: Seq<Seq<char>>, i: int, j: int)
    requires
        sorted_names(names),
        0 <= i < names.len(),
        0 <= j < names.len(),
        names[i] == names[j],
    ensures
        i == j,
{
    lemma_seq_lt_irreflexive(names[i]);
    if i < j {
        assert(seq_lt(names[i], names[j]));
    } else if j < i {
        assert(seq_lt(names[j], names[i]));
    }
}

/// Whether some record has the name.
pub open spec fn has_name(names: Seq<Seq<char>>, name: Seq<char>) -> bool {
    exists|i: int| 0 <= i < names.len() && names[i] == name
}

/// Finds `name` among records sorted by name: its index where it occurs, and
/// otherwise the index at which it would be inserted to keep the order.
pub fn locate<E: Named>(entries: &Vec<E>, name: &str) -> (r: (bool, usize))
    requires
        sorted_names(names_of(entries@)),
    ensures
        r.1 <= entries.len(),
        r.0 ==> r.1 < entries.len() && entries@[r.1 as int].spec_name() == name@,
        r.0 == has_name(names_of(entries@), name@),
        !r.0 ==> forall|i: int| 0 <= i < r.1 ==> seq_lt(#[trigger] names_of(entries@)[i], name@),
        !r.0 ==> forall|i: int| r.1 <= i < entries.len() ==> seq_lt(name@, #[trigger] names_of(entries@)[i]),
{
    let ghost names = names_of(entries@);
    let mut i: usize = 0;
    while i < entries.len()
        invariant
            names == names_of(entries@),
            sorted_names(names),
            i <= entries.len(),
            forall|k: int| 0 <= k < i ==> seq_lt(#[trigger] names[k], name@),
        decreases entries.len() - i,
    {
        let entry_name = entries[i].name_str();
        if str_eq(entry_name, name) {
            proof {
                assert(names[i as int] == name@);
            }
            return (true, i);
        }
        if str_lt(name, entry_name) {
            proof {
                assert forall|k: int| i <= k < entries.len() implies seq_lt(name@, #[trigger] names[k]) by {
                    if k > i {
                        lemma_seq_lt_transitive(name@, names[i as int], names[k]);
                    }
                }
                assert forall|k: int| 0 <= k < entries.len() implies names[k] != name@ by {
                    if k < i {
                        lemma_seq_lt_irreflexive(name@);
                    } else {
                        lemma_seq_lt_irreflexive(name@);
                    }
                }
            }
            return (false, i);
        }
        proof {
            lemma_seq_lt_total(names[i as int], name@);
        }
        i = i + 1;
    }
    proof {
        assert forall|k: int| 0 <= k < entries.len() implies names[k] != name@ by {
            lemma_seq_lt_irreflexive(name@);
        }
    }
    (false, i)
}

} // verus!

verus! {

/// Adds `entry` to records sorted by name, at the place its name sorts to,
/// unless a record with that name is there already; says whether it added it.
pub fn insert_named<E: Named>(entries: &mut Vec<E>, entry: E) -> (added: bool)
    requires
        sorted_names(names_of(old(entries)@)),
    ensures
        sorted_names(names_of(final(entries)@)),
        added == !has_name(names_of(old(entries)@), entry.spec_name()),
        !added ==> final(entries)@ == old(entries)@,
        added ==> exists|pos: int| 0 <= pos <= old(entries)@.len()
            && final(entries)@ == old(entries)@.insert(pos, entry),
        added ==> names_of(final(entries)@).to_set() == names_of(old(entries)@).to_set().insert(entry.spec_name()),
{
    let (found, pos) = locate(entries, entry.name_str());
    if found {
        return false;
    }
    let ghost names = names_of(entries@);
    let ghost name = entry.spec_name();
    entries.insert(pos, entry);
    proof {
        let new_names = names_of(entries@);
        assert(new_names =~= names.insert(pos as int, name));
        assert forall|i: int, j: int| 0 <= i < j < new_names.len() implies seq_lt(
            #[trigger] new_names[i],
            #[trigger] new_names[j],
        ) by {
            if i < pos && j == pos {
            } else if i == pos && j > pos {
                assert(new_names[j] == names[j - 1]);
            } else if i < pos && j > pos {
                assert(new_names[j] == names[j - 1]);
            } else if i > pos {
                assert(new_names[i] == names[i - 1]);
                assert(new_names[j] == names[j - 1]);
            }
        }
        assert(new_names.to_set() =~= names.to_set().insert(name)) by {
            assert forall|x: Seq<char>| new_names.to_set().contains(x) implies names.to_set().insert(
                name,
            ).contains(x) by {
                let k = choose|k: int| 0 <= k < new_names.len() && new_names[k] == x;
                if k > pos {
                    assert(names[k - 1] == x);
                } else if k < pos {
                    assert(names[k] == x);
                }
            }
            assert forall|x: Seq<char>| names.to_set().insert(name).contains(x) implies new_names.to_set().contains(x) by {
                if x == name {
                    assert(new_names[pos as int] == x);
                } else {
                    let k = choose|k: int| 0 <= k < names.len() && names[k] == x;
                    if k < pos {
                        assert(new_names[k] == x);
                    } else {
                        assert(new_names[k + 1] == x);
                    }
                }
            }
        }
    }
    true
}

/// Removes the record named `name` from records sorted by name, if there is
/// one, and hands it back.
pub fn remove_named<E: Named>(entries: &mut Vec<E>, name: &str) -> (removed: Option<E>)
    requires
        sorted_names(names_of(old(entries)@)),
    ensures
        sorted_names(names_of(final(entries)@)),
        removed is Some == has_name(names_of(old(entries)@), name@),
        removed is None ==> final(entries)@ == old(entries)@,
        removed matches Some(e) ==> e.spec_name() == name@ && exists|pos: int|
            0 <= pos < old(entries)@.len() && old(entries)@[pos] == e
            && final(entries)@ == old(entries)@.remove(pos),
        removed is Some ==> names_of(final(entries)@).to_set() == names_of(old(entries)@).to_set().remove(name@),
{
    let (found, pos) = locate(entries, name);
    if !found {
        return None;
    }
    let ghost names = names_of(entries@);
    let ghost old_entries = entries@;
    let e = entries.remove(pos);
    proof {
        let new_names = names_of(entries@);
        assert(new_names =~= names.remove(pos as int));
        assert forall|i: int, j: int| 0 <= i < j < new_names.len() implies seq_lt(
            #[trigger] new_names[i],
            #[trigger] new_names[j],
        ) by {
            if i < pos && j < pos {
            } else if i < pos {
                assert(new_names[j] == names[j + 1]);
            } else {
                assert(new_names[i] == names[i + 1]);
                assert(new_names[j] == names[j + 1]);
            }
        }
        assert(new_names.to_set() =~= names.to_set().remove(name@)) by {
            assert forall|x: Seq<char>| new_names.to_set().contains(x) implies names.to_set().remove(
                name@,
            ).contains(x) by {
                let k = choose|k: int| 0 <= k < new_names.len() && new_names[k] == x;
                if k < pos {
                    assert(names[k] == x);
                    assert(seq_lt(names[k], names[pos as int]));
                    lemma_seq_lt_irreflexive(x);
                } else {
                    assert(names[k + 1] == x);
                    assert(seq_lt(names[pos as int], names[k + 1]));
                    lemma_seq_lt_irreflexive(x);
                }
            }
            assert forall|x: Seq<char>| names.to_set().remove(name@).contains(x) implies new_names.to_set().contains(x) by {
                let k = choose|k: int| 0 <= k < names.len() && names[k] == x;
                if k < pos {
                    assert(new_names[k] == x);
                } else {
                    assert(k != pos);
                    assert(new_names[k - 1] == x);
                }
            }
        }
    }
    Some(e)
}

} // verus!

verus! {

/// The index of the first `name` in `names`, or -1.
pub open spec fn first_index_of(names: Seq<Seq<char>>, name: Seq<char>) -> int
    decreases names.len(),
{
    if names.len() == 0 {
        -1
    } else if names[0] == name {
        0
    } else {
        let r = first_index_of(names.drop_first(), name);
        if r < 0 {
            -1
        } else {
            r + 1
        }
    }
}

/// The record named `name`, if any.
pub open spec fn lookup_named<E: Named>(entries: Seq<E>, name: Seq<char>) -> Option<E> {
    let k = first_index_of(names_of(entries), name);
    if k >= 0 {
        Some(entries[k])
    } else {
        None
    }
}

/// `first_index_of` finds the first occurrence, and -1 only when there is none.
pub proof fn lemma_first_index_of(names: Seq<Seq<char>>, name: Seq<char>)
    ensures
        ({
            let r = first_index_of(names, name);
            &&& r < 0 ==> r == -1 && !has_name(names, name)
            &&& r >= 0 ==> r < names.len() && names[r] == name
                && forall|j: int| 0 <= j < r ==> names[j] != name
        }),
    decreases names.len(),
{
    if names.len() > 0 && names[0] != name {
        lemma_first_index_of(names.drop_first(), name);
        let r = first_index_of(names.drop_first(), name);
        if r < 0 {
            assert forall|j: int| 0 <= j < names.len() implies names[j] != name by {
                if j > 0 {
                    assert(names.drop_first()[j - 1] == names[j]);
                }
            }
        } else {
            assert forall|j: int| 0 <= j < r + 1 implies names[j] != name by {
                if j > 0 {
                    assert(names.drop_first()[j - 1] == names[j]);
                }
            }
        }
    }
}

/// In records sorted by name, the record at an index is the one its name
/// finds.
pub proof fn lemma_lookup_named_at<E: Named>(entries: Seq<E>, idx: int)
    requires
        sorted_names(names_of(entries)),
        0 <= idx < entries.len(),
    ensures
        lookup_named(entries, entries[idx].spec_name()) == Some(entries[idx]),
{
    let names = names_of(entries);
    let name = entries[idx].spec_name();
    assert(names[idx] == name);
    lemma_first_index_of(names, name);
    let k = first_index_of(names, name);
    if k != idx {
        if k < idx {
            assert(seq_lt(names[k], names[idx]));
        }
        lemma_seq_lt_irreflexive(name);
    }
}

/// Without the name, the lookup finds nothing.
pub proof fn lemma_lookup_named_none<E: Named>(entries: Seq<E>, name: Seq<char>)
    requires
        !has_name(names_of(entries), name),
    ensures
        lookup_named(entries, name) is None,
{
    lemma_first_index_of(names_of(entries), name);
}

/// Looks up the index of the record named `name`.
pub fn find_named<E: Named>(entries: &Vec<E>, name: &str) -> (index: Option<usize>)
    requires
        sorted_names(names_of(entries@)),
    ensures
        match index {
            Some(i) => i < entries.len() && lookup_named(entries@, name@) == Some(entries@[i as int])
                && entries@[i as int].spec_name() == name@,
            None => lookup_named(entries@, name@) is None,
        },
{
    let (found, pos) = locate(entries, name);
    if found {
        proof {
            lemma_lookup_named_at(entries@, pos as int);
        }
        Some(pos)
    } else {
        proof {
            lemma_lookup_named_none(entries@, name@);
        }
        None
    }
}

/// Inserting a record leaves what every other name finds unchanged.
pub proof fn lemma_insert_keeps_other<E: Named>(before: Seq<E>, pos: int, e: E, other: Seq<char>)
    requires
        sorted_names(names_of(before)),
        sorted_names(names_of(before.insert(pos, e))),
        0 <= pos <= before.len(),
        other != e.spec_name(),
    ensures
        lookup_named(before.insert(pos, e), other) == lookup_named(before, other),
{
    let after = before.insert(pos, e);
    if has_name(names_of(before), other) {
        let k = choose|k: int| 0 <= k < names_of(before).len() && names_of(before)[k] == other;
        lemma_lookup_named_at(before, k);
        let k2 = if k < pos { k } else { k + 1 };
        assert(after[k2] == before[k]);
        lemma_lookup_named_at(after, k2);
    } else {
        lemma_lookup_named_none(before, other);
        if has_name(names_of(after), other) {
            let k = choose|k: int| 0 <= k < names_of(after).len() && names_of(after)[k] == other;
            if k < pos {
                assert(names_of(before)[k] == other);
            } else if k > pos {
                assert(names_of(before)[k - 1] == other);
            }
        }
        lemma_lookup_named_none(after, other);
    }
}

/// Removing a record leaves what every other name finds unchanged.
pub proof fn lemma_remove_keeps_other<E: Named>(before: Seq<E>, pos: int, other: Seq<char>)
    requires
        sorted_names(names_of(before)),
        sorted_names(names_of(before.remove(pos))),
        0 <= pos < before.len(),
        other != before[pos].spec_name(),
    ensures
        lookup_named(before.remove(pos), other) == lookup_named(before, other),
{
    let after = before.remove(pos);
    if has_name(names_of(before), other) {
        let k = choose|k: int| 0 <= k < names_of(before).len() && names_of(before)[k] == other;
        lemma_lookup_named_at(before, k);
        assert(k != pos);
        let k2 = if k < pos { k } else { k - 1 };
        assert(after[k2] == before[k]);
        lemma_lookup_named_at(after, k2);
    } else {
        lemma_lookup_named_none(before, other);
        if has_name(names_of(after), other) {
            let k = choose|k: int| 0 <= k < names_of(after).len() && names_of(after)[k] == other;
            if k < pos {
                assert(names_of(before)[k] == other);
            } else {
                assert(names_of(before)[k + 1] == other);
            }
        }
        lemma_lookup_named_none(after, other);
    }
}

/// What a name finds is a record of that name, and something exactly when
/// some record has the name.
pub proof fn lemma_lookup_named_some<E: Named>(entries: Seq<E>, name: Seq<char>)
    ensures
        lookup_named(entries, name) is Some <==> has_name(names_of(entries), name),
        lookup_named(entries, name) matches Some(e) ==> e.spec_name() == name,
{
    lemma_first_index_of(names_of(entries), name);
}

/// Puts `entry` among records sorted by name: in place of the record with
/// its name if there is one, else at the place its name sorts to.
pub fn upsert_named<E: Named>(entries: &mut Vec<E>, entry: E)
    requires
        sorted_names(names_of(old(entries)@)),
    ensures
        sorted_names(names_of(final(entries)@)),
        lookup_named(final(entries)@, entry.spec_name()) == Some(entry),
        forall|other: Seq<char>| other != entry.spec_name() ==> #[trigger] lookup_named(final(entries)@, other)
            == lookup_named(old(entries)@, other),
        final(entries)@.len() <= old(entries)@.len() + 1,
{
    let ghost before = entries@;
    let ghost e = entry;
    let (found, pos) = locate(entries, entry.name_str());
    if found {
        entries.set(pos, entry);
        proof {
            assert(names_of(entries@) =~= names_of(before));
            lemma_lookup_named_at(entries@, pos as int);
            assert forall|other: Seq<char>| other != e.spec_name() implies #[trigger] lookup_named(entries@, other)
                == lookup_named(before, other) by {
                let k = first_index_of(names_of(before), other);
                lemma_first_index_of(names_of(before), other);
                if k >= 0 {
                    assert(k != pos);
                    assert(entries@[k] == before[k]);
                }
            }
        }
    } else {
        insert_named(entries, entry);
        proof {
            let pos = choose|pos: int| 0 <= pos <= before.len() && entries@ == before.insert(pos, e);
            lemma_lookup_named_at(entries@, pos);
            assert forall|other: Seq<char>| other != e.spec_name() implies #[trigger] lookup_named(entries@, other)
                == lookup_named(before, other) by {
                lemma_insert_keeps_other(before, pos, e, other);
            }
        }
    }
}

} // verus!

verus! {

/// The message that `std::str::from_utf8` reports for bytes that are not
/// UTF-8.
pub uninterp spec fn utf8_error_message(bytes: Seq<u8>) -> Seq<char>;

/// Wraps `std::str::from_utf8`, keeping only its error: nothing for valid
/// UTF-8, else the message of the error it reports.
#[verifier::external_body]
pub(crate) fn utf8_error(bytes: &[u8]) -> (message: Option<String>)
    ensures
        match message {
            Some(m) => !vstd::utf8::valid_utf8(bytes@) && m@ == utf8_error_message(bytes@),
            None => vstd::utf8::valid_utf8(bytes@),
        },
{
    match std::str::from_utf8(bytes) {
        Ok(_) => None,
        Err(error) => Some(error.to_string()),
    }
}

/// Wraps `String::from_utf8`: the string the bytes encode, `None` exactly
/// when they are not valid UTF-8.
#[verifier::external_body]
pub(crate) fn utf8_to_string(bytes: Vec<u8>) -> (s: Option<String>)
    ensures
        match s {
            Some(s) => vstd::utf8::valid_utf8(bytes@) && s@ == vstd::utf8::decode_utf8(bytes@),
            None => !vstd::utf8::valid_utf8(bytes@),
        },
{
    String::from_utf8(bytes).ok()
}

} // verus!

verus! {

/// A code point that is a character: below the surrogates, or between them
/// and the last code point.
pub open spec fn is_char_code(v: u32) -> bool {
    v < 0xD800 || (0xE000 <= v && v < 0x110000)
}

/// Wraps `char::from_u32`: the character with code point `v`, `None`
/// exactly when `v` is not a character's code point.
#[verifier::external_body]
pub(crate) fn char_from_u32(v: u32) -> (c: Option<char>)
    ensures
        is_char_code(v) ==> c == Some(v as char),
        !is_char_code(v) ==> c is None,
{
    char::from_u32(v)
}

/// Wraps `String::from` on a character: the string of that one character.
#[verifier::external_body]
pub(crate) fn char_to_string(c: char) -> (s: String)
    ensures
        s@ == seq![c],
{
    String::from(c)
}

} // verus!

verus! {

/// A character that stands for itself in a regular expression: a letter or
/// digit of ASCII, `/`, `_` or `-`.
pub open spec fn is_plain_char(c: char) -> bool {
    ('a' <= c && c <= 'z') || ('A' <= c && c <= 'Z') || ('0' <= c && c <= '9') || c == '/' || c == '_' || c == '-'
}

/// Text whose characters all stand for themselves in a regular expression.
pub open spec fn is_plain_text(s: Seq<char>) -> bool {
    forall|i: int| 0 <= i < s.len() ==> is_plain_char(#[trigger] s[i])
}

/// Whether `text` matches the regular expression `pattern` as fancy_regex
/// decides it, or `None` where fancy_regex reports an error: the pattern
/// does not compile, or matching failed.
pub uninterp spec fn regex_is_match(pattern: Seq<char>, text: Seq<char>) -> Option<bool>;

/// Patterns up to this many characters compile whatever they hold, when
/// they are `^` followed by plain text: far below the size limit of the
/// compiled program.
pub const PLAIN_PATTERN_LIMIT: usize = 4096;

/// Wraps fancy_regex's `Regex::new(pattern)` and `Regex::is_match(text)`:
/// the named result. For `^` followed by plain text, a pattern that compiled
/// says whether that text begins `text`, and one of at most
/// `PLAIN_PATTERN_LIMIT` characters compiles.
#[verifier::external_body]
pub(crate) fn regex_matches(pattern: &str, text: &str) -> (matched: Option<bool>)
    ensures
        matched == regex_is_match(pattern@, text@),
        pattern@.len() > 0 && pattern@[0] == '^' && is_plain_text(pattern@.skip(1)) && matched is Some ==> matched
            == Some(pattern@.skip(1).is_prefix_of(text@)),
        pattern@.len() > 0 && pattern@[0] == '^' && is_plain_text(pattern@.skip(1)) && pattern@.len()
            <= PLAIN_PATTERN_LIMIT ==> matched is Some,
{
    match fancy_regex::Regex::new(pattern) {
        Ok(re) => re.is_match(text).ok(),
        Err(_) => None,
    }
}

/// Wraps fancy_regex's `Regex::new(pattern)` and `Regex::replace_all(text,
/// "")` for a pattern of `^` followed by plain text: `text` without that
/// text at its start, if it begins so and the pattern compiles (as it does
/// where matching with it gave a result, or where it is at most
/// `PLAIN_PATTERN_LIMIT` characters long); `text` itself otherwise.
#[verifier::external_body]
pub(crate) fn regex_strip_start(pattern: &str, text: &str) -> (stripped: String)
    requires
        pattern@.len() > 0,
        pattern@[0] == '^',
        is_plain_text(pattern@.skip(1)),
    ensures
        (regex_is_match(pattern@, text@) is Some || pattern@.len() <= PLAIN_PATTERN_LIMIT) && pattern@.skip(
            1,
        ).is_prefix_of(text@) ==> stripped@ == text@.skip(pattern@.len() - 1),
        !pattern@.skip(1).is_prefix_of(text@) ==> stripped@ == text@,
{
    match fancy_regex::Regex::new(pattern) {
        Ok(re) => re.replace_all(text, "").to_string(),
        Err(_) => text.to_string(),
    }
}

} // verus!

verus! {

/// Whether every character of `s` stands for itself in a regular
/// expression.
pub fn plain_text(s: &str) -> (plain: bool)
    ensures
        plain == is_plain_text(s@),
{
    let chars = chars_of(s);
    let mut i: usize = 0;
    while i < chars.len()
        invariant
            chars@ == s@,
            i <= chars@.len(),
            forall|j: int| 0 <= j < i ==> is_plain_char(#[trigger] chars@[j]),
        decreases chars.len() - i,
    {
        let c = chars[i];
        if !(('a' <= c && c <= 'z') || ('A' <= c && c <= 'Z') || ('0' <= c && c <= '9') || c == '/' || c == '_' || c
            == '-') {
            return false;
        }
        i = i + 1;
    }
    true
}

} // verus!
