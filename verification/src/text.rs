use vstd::prelude::*;

verus! {

/// The decimal digit character for `d < 10`.
pub open spec fn digit_char(d: nat) -> char {
    seq!['0', '1', '2', '3', '4', '5', '6', '7', '8', '9'][d as int]
}

/// The decimal representation of `n`, most significant digit first, no leading zeros.
pub open spec fn decimal(n: nat) -> Seq<char>
    decreases n,
{
    if n < 10 {
        seq![digit_char(n)]
    } else {
        decimal(n / 10).push(digit_char(n % 10))
    }
}

/// `n` copies of `s`, one after the other.
pub open spec fn repeat(s: Seq<char>, n: nat) -> Seq<char>
    decreases n,
{
    if n == 0 {
        Seq::empty()
    } else {
        repeat(s, (n - 1) as nat) + s
    }
}

/// `n` copies of `dot` joined by a double horizontal stroke, as in `●──●──●`.
pub open spec fn chain(dot: Seq<char>, n: nat) -> Seq<char>
    decreases n,
{
    if n == 0 {
        Seq::empty()
    } else if n == 1 {
        dot
    } else {
        chain(dot, (n - 1) as nat) + "──"@ + dot
    }
}

/// `i` is the position of the first line feed in `s`.
pub open spec fn first_newline_at(s: Seq<char>, i: int) -> bool {
    &&& 0 <= i < s.len()
    &&& s[i] == '\n'
    &&& forall|j: int| 0 <= j < i ==> s[j] != '\n'
}

/// The first line of `s` in the sense of `str::lines`: `None` for the empty
/// text; otherwise the text up to the first line feed, without a carriage
/// return that stands right before that line feed (the whole text when it has
/// no line feed).
pub open spec fn first_line(s: Seq<char>) -> Option<Seq<char>> {
    if s.len() == 0 {
        None
    } else if exists|i: int| first_newline_at(s, i) {
        let i = choose|i: int| first_newline_at(s, i);
        if i > 0 && s[i - 1] == '\r' {
            Some(s.take(i - 1))
        } else {
            Some(s.take(i))
        }
    } else {
        Some(s)
    }
}

/// The number that a string of decimal digits denotes.
pub open spec fn digits_value(s: Seq<char>) -> nat
    decreases s.len(),
{
    if s.len() == 0 {
        0
    } else {
        digits_value(s.drop_last()) * 10 + ((s.last() as nat) - ('0' as nat)) as nat
    }
}

/// Every character is a decimal digit.
pub open spec fn all_digits(s: Seq<char>) -> bool {
    forall|i: int| 0 <= i < s.len() ==> '0' <= #[trigger] s[i] <= '9'
}

/// `decimal` is the usual decimal notation: digits only, at least one, no
/// leading zero but for zero itself, and it reads back as the number.
pub proof fn decimal_reads_back(n: nat)
    ensures
        all_digits(decimal(n)),
        decimal(n).len() >= 1,
        decimal(n)[0] == '0' ==> n == 0,
        digits_value(decimal(n)) == n,
    decreases n,
{
    digit_char_value(n % 10);
    if n >= 10 {
        decimal_reads_back(n / 10);
        let d = decimal(n);
        assert(d.drop_last() =~= decimal(n / 10));
        assert(d[0] == decimal(n / 10)[0]);
        assert(d.last() == digit_char(n % 10));
        assert(digits_value(d) == (n / 10) * 10 + n % 10);
    } else {
        let d = decimal(n);
        assert(d.drop_last() =~= Seq::<char>::empty());
        assert(digits_value(Seq::<char>::empty()) == 0);
        assert(d.last() == digit_char(n));
        assert(n % 10 == n);
        assert(digits_value(d) == digits_value(d.drop_last()) * 10 + ((d.last() as nat) - ('0' as nat)) as nat);
    }
}

proof fn digit_char_value(d: nat)
    requires
        d < 10,
    ensures
        (digit_char(d) as nat) - ('0' as nat) == d,
        '0' <= digit_char(d) <= '9',
{
    if d == 0 {
        assert(digit_char(d) == '0');
    } else if d == 1 {
        assert(digit_char(d) == '1');
    } else if d == 2 {
        assert(digit_char(d) == '2');
    } else if d == 3 {
        assert(digit_char(d) == '3');
    } else if d == 4 {
        assert(digit_char(d) == '4');
    } else if d == 5 {
        assert(digit_char(d) == '5');
    } else if d == 6 {
        assert(digit_char(d) == '6');
    } else if d == 7 {
        assert(digit_char(d) == '7');
    } else if d == 8 {
        assert(digit_char(d) == '8');
    } else {
        assert(digit_char(d) == '9');
    }
}

/// `repeat(s, n)` is `n` times as long as `s`.
pub proof fn repeat_len(s: Seq<char>, n: nat)
    ensures
        repeat(s, n).len() == s.len() * n,
        s.len() == 1 ==> repeat(s, n).len() == n,
    decreases n,
{
    if n > 0 {
        let m = (n - 1) as nat;
        repeat_len(s, m);
        assert(repeat(s, n) == repeat(s, m) + s);
        assert(repeat(s, n).len() == repeat(s, m).len() + s.len());
        assert(s.len() * n == s.len() * m + s.len()) by (nonlinear_arith)
            requires
                n == m + 1,
        ;
    } else {
        assert(repeat(s, 0).len() == 0);
    }
}

/// The first line of a text is a prefix of it without a line feed; a text
/// has a first line exactly when it is not empty.
pub proof fn first_line_is_a_line(s: Seq<char>)
    ensures
        first_line(s).is_some() <==> s.len() > 0,
        first_line(s) matches Some(l) ==> l.is_prefix_of(s) && !l.contains('\n'),
{
    if s.len() > 0 {
        if exists|i: int| first_newline_at(s, i) {
            let i = choose|i: int| first_newline_at(s, i);
            let l = first_line(s).unwrap();
            assert(l.is_prefix_of(s));
            assert forall|j: int| 0 <= j < l.len() implies l[j] != '\n' by {
                assert(l[j] == s[j]);
            }
        } else {
            assert forall|j: int| 0 <= j < s.len() implies s[j] != '\n' by {
                if s[j] == '\n' {
                    lemma_first_newline_exists(s, j);
                }
            }
        }
    }
}

proof fn lemma_first_newline_exists(s: Seq<char>, j: int)
    requires
        0 <= j < s.len(),
        s[j] == '\n',
    ensures
        exists|i: int| first_newline_at(s, i),
    decreases j,
{
    if exists|k: int| 0 <= k < j && s[k] == '\n' {
        let k = choose|k: int| 0 <= k < j && s[k] == '\n';
        lemma_first_newline_exists(s, k);
    } else {
        assert(first_newline_at(s, j));
    }
}

proof fn lemma_first_newline_unique(s: Seq<char>, i: int, j: int)
    requires
        first_newline_at(s, i),
        first_newline_at(s, j),
    ensures
        i == j,
{
}

/// Appends the decimal digit `d`.
fn push_digit(out: &mut String, d: usize)
    requires
        d < 10,
    ensures
        final(out)@ == old(out)@.push(digit_char(d as nat)),
{
    proof {
        reveal_strlit("0");
        reveal_strlit("1");
        reveal_strlit("2");
        reveal_strlit("3");
        reveal_strlit("4");
        reveal_strlit("5");
        reveal_strlit("6");
        reveal_strlit("7");
        reveal_strlit("8");
        reveal_strlit("9");
    }
    let digit = if d == 0 {
        "0"
    } else if d == 1 {
        "1"
    } else if d == 2 {
        "2"
    } else if d == 3 {
        "3"
    } else if d == 4 {
        "4"
    } else if d == 5 {
        "5"
    } else if d == 6 {
        "6"
    } else if d == 7 {
        "7"
    } else if d == 8 {
        "8"
    } else {
        "9"
    };
    assert(digit@ == seq![digit_char(d as nat)]);
    out.append(digit);
    assert(out@ =~= old(out)@.push(digit_char(d as nat)));
}

/// Appends the decimal representation of `n`.
pub fn push_decimal(out: &mut String, n: usize)
    ensures
        final(out)@ == old(out)@ + decimal(n as nat),
    decreases n,
{
    if n >= 10 {
        push_decimal(out, n / 10);
        push_digit(out, n % 10);
        assert(out@ =~= old(out)@ + decimal(n as nat));
    } else {
        push_digit(out, n);
        assert(out@ =~= old(out)@ + decimal(n as nat));
    }
}

/// Appends `n` copies of `s`.
pub fn push_repeat(out: &mut String, s: &str, n: usize)
    ensures
        final(out)@ == old(out)@ + repeat(s@, n as nat),
{
    let mut i: usize = 0;
    while i < n
        invariant
            i <= n,
            out@ == old(out)@ + repeat(s@, i as nat),
        decreases n - i,
    {
        out.append(s);
        i = i + 1;
        assert(out@ =~= old(out)@ + repeat(s@, i as nat));
    }
}

/// Appends `n` copies of `dot` joined by `──`.
pub fn push_chain(out: &mut String, dot: &str, n: usize)
    ensures
        final(out)@ == old(out)@ + chain(dot@, n as nat),
{
    let mut i: usize = 0;
    while i < n
        invariant
            i <= n,
            out@ == old(out)@ + chain(dot@, i as nat),
        decreases n - i,
    {
        if i > 0 {
            out.append("──");
        }
        out.append(dot);
        i = i + 1;
        assert(out@ =~= old(out)@ + chain(dot@, i as nat));
    }
}

/// Whether two texts are the same sequence of characters.
pub fn same_text(a: &str, b: &str) -> (r: bool)
    ensures
        r == (a@ == b@),
{
    let n = a.unicode_len();
    let m = b.unicode_len();
    if n != m {
        return false;
    }
    let mut i: usize = 0;
    while i < n
        invariant
            n == a@.len(),
            m == b@.len(),
            n == m,
            i <= n,
            forall|j: int| 0 <= j < i ==> a@[j] == b@[j],
        decreases n - i,
    {
        if a.get_char(i) != b.get_char(i) {
            return false;
        }
        i = i + 1;
    }
    assert(a@ =~= b@);
    true
}

/// The first line of `s`, as `str::lines().next()` gives it.
pub fn first_line_of(s: &str) -> (r: Option<&str>)
    ensures
        match r {
            Some(l) => first_line(s@) == Some(l@),
            None => first_line(s@).is_none(),
        },
{
    let n = s.unicode_len();
    if n == 0 {
        return None;
    }
    let mut i: usize = 0;
    for c in it: s.chars()
        invariant
            i == it.index(),
            it.seq() == s@,
            n == s@.len(),
            forall|j: int| 0 <= j < i ==> s@[j] != '\n',
    {
        if c == '\n' {
            proof {
                assert(first_newline_at(s@, i as int));
                let k = choose|k: int| first_newline_at(s@, k);
                lemma_first_newline_unique(s@, i as int, k);
            }
            if i > 0 && s.get_char(i - 1) == '\r' {
                return Some(s.substring_char(0, i - 1));
            } else {
                return Some(s.substring_char(0, i));
            }
        }
        i = i + 1;
    }
    assert(!exists|k: int| first_newline_at(s@, k));
    Some(s)
}

} // verus!
