use vstd::prelude::*;

verus! {


/// The decimal digit character for `d`.
pub open spec fn spec_digit_char(d: int) -> char {
    if d == 0 {
        '0'
    } else if d == 1 {
        '1'
    } else if d == 2 {
        '2'
    } else if d == 3 {
        '3'
    } else if d == 4 {
        '4'
    } else if d == 5 {
        '5'
    } else if d == 6 {
        '6'
    } else if d == 7 {
        '7'
    } else if d == 8 {
        '8'
    } else {
        '9'
    }
}

/// The decimal digits of a nonnegative integer, most significant first.
pub open spec fn spec_nat_chars(n: nat) -> Seq<char>
    decreases n,
{
    if n < 10 {
        seq![spec_digit_char(n as int)]
    } else {
        spec_nat_chars(n / 10).push(spec_digit_char((n % 10) as int))
    }
}

/// The decimal rendering of an integer.
pub open spec fn spec_int_chars(n: int) -> Seq<char> {
    if n < 0 {
        seq!['-'] + spec_nat_chars((-n) as nat)
    } else {
        spec_nat_chars(n as nat)
    }
}

/// The bracketed name `tag[idx]` that a tag and a sphere index make.
pub open spec fn spec_name(tag: Seq<char>, idx: int) -> Seq<char> {
    tag + seq!['['] + spec_int_chars(idx) + seq![']']
}

fn digit_str(d: u64) -> (r: &'static str)
    requires
        d < 10,
    ensures
        r@ == seq![spec_digit_char(d as int)],
{
    proof {
        reveal_strlit("0");
        reveal_strlit("1");
        reveal_strlit("2");
        reveal_strlit("3");
        reveal_strlit("4");
        reveal_strlit("5");
        reveal_strlit("6");
        reveal_strlit("7");
        reveal_strlit("8");
        reveal_strlit("9");
    }
    let r = match d {
        0 => "0",
        1 => "1",
        2 => "2",
        3 => "3",
        4 => "4",
        5 => "5",
        6 => "6",
        7 => "7",
        8 => "8",
        _ => "9",
    };
    proof {
        assert(r@ =~= seq![spec_digit_char(d as int)]);
    }
    r
}

fn nat_to_string(n: u64) -> (r: String)
    ensures
        r@ == spec_nat_chars(n as nat),
    decreases n,
{
    if n < 10 {
        String::from_str(digit_str(n))
    } else {
        let mut s = nat_to_string(n / 10);
        s.append(digit_str(n % 10));
        proof {
            assert(s@ =~= spec_nat_chars(n as nat));
        }
        s
    }
}

/// Render an integer in decimal.
pub fn int_to_string(n: i32) -> (r: String)
    ensures
        r@ == spec_int_chars(n as int),
{
    if n < 0 {
        let mut s = String::from_str("-");
        let m: u64 = (-(n as i64)) as u64;
        let d = nat_to_string(m);
        s.append(d.as_str());
        proof {
            reveal_strlit("-");
            assert(s@ =~= spec_int_chars(n as int));
        }
        s
    } else {
        nat_to_string(n as u64)
    }
}

/// Build the name `tag[idx]`.
pub fn make_name(tag: &str, idx: i32) -> (r: String)
    ensures
        r@ == spec_name(tag@, idx as int),
{
    let mut s = tag.to_owned();
    s.append("[");
    let d = int_to_string(idx);
    s.append(d.as_str());
    s.append("]");
    proof {
        reveal_strlit("[");
        reveal_strlit("]");
        assert(s@ =~= spec_name(tag@, idx as int));
    }
    s
}

/// Whether every character of `s` is a decimal digit.
pub open spec fn all_digits(s: Seq<char>) -> bool {
    forall|i: int| 0 <= i < s.len() ==> 48 <= (#[trigger] s[i]) as u32 <= 57
}

/// The value of a digit string, most significant first.
pub open spec fn spec_digits_val(s: Seq<char>) -> int
    decreases s.len(),
{
    if s.len() == 0 {
        0
    } else {
        spec_digits_val(s.drop_last()) * 10 + (s.last() as u32 - 48)
    }
}

proof fn lemma_digits_val_nonneg(s: Seq<char>)
    requires
        all_digits(s),
    ensures
        spec_digits_val(s) >= 0,
    decreases s.len(),
{
    if s.len() > 0 {
        assert(all_digits(s.drop_last())) by {
            assert(forall|i: int| 0 <= i < s.len() - 1 ==> s.drop_last()[i] == s[i]);
        }
        lemma_digits_val_nonneg(s.drop_last());
    }
}

proof fn lemma_digits_val_monotone(s: Seq<char>, i: int)
    requires
        all_digits(s),
        0 <= i <= s.len(),
    ensures
        spec_digits_val(s) >= spec_digits_val(s.take(i)),
    decreases s.len() - i,
{
    if i < s.len() {
        lemma_digits_val_monotone(s, i + 1);
        let a = s.take(i);
        let b = s.take(i + 1);
        assert(b.drop_last() =~= a);
        assert(all_digits(a)) by {
            assert(forall|k: int| 0 <= k < i ==> a[k] == s[k]);
        }
        lemma_digits_val_nonneg(a);
        assert(spec_digits_val(b) == spec_digits_val(a) * 10 + (b.last() as u32 - 48));
        assert(spec_digits_val(b) >= spec_digits_val(a));
    } else {
        assert(s.take(i) =~= s);
    }
}

/// Parse a whole string of decimal digits.  `None` when the string is
/// empty, holds a non-digit, or does not fit the result type.
pub fn parse_digits(s: &str) -> (r: Option<i32>)
    ensures
        match r {
            Some(v) => s@.len() > 0 && all_digits(s@) && v as int == spec_digits_val(s@) && v >= 0,
            None => s@.len() == 0 || !all_digits(s@) || spec_digits_val(s@) > i32::MAX,
        },
{
    let n = s.unicode_len();
    if n == 0 {
        return None;
    }
    let mut acc: u64 = 0;
    let mut i: usize = 0;
    while i < n
        invariant
            n == s@.len(),
            0 <= i <= n,
            all_digits(s@.take(i as int)),
            acc as int == spec_digits_val(s@.take(i as int)),
            acc <= i32::MAX as u64,
        decreases n - i,
    {
        let c = s.get_char(i);
        let cv = c as u32;
        if cv < 48 || cv > 57 {
            proof {
                assert(s@[i as int] == c);
            }
            return None;
        }
        let d: u64 = (cv - 48) as u64;
        let next: u64 = acc * 10 + d;
        proof {
            let taken = s@.take(i + 1);
            assert(taken.drop_last() =~= s@.take(i as int));
            assert(taken.last() == s@[i as int]);
            assert(all_digits(taken)) by {
                assert(forall|k: int| 0 <= k < i ==> taken[k] == s@.take(i as int)[k]);
            }
        }
        if next > i32::MAX as u64 {
            proof {
                if all_digits(s@) {
                    lemma_digits_val_monotone(s@, i + 1);
                    assert(spec_digits_val(s@) >= spec_digits_val(s@.take(i + 1)));
                }
            }
            return None;
        }
        acc = next;
        i = i + 1;
    }
    proof {
        assert(s@.take(n as int) =~= s@);
    }
    Some(acc as i32)
}

/// Index of the first space of `s`, or its length when it has none.
pub open spec fn spec_first_space(s: Seq<char>) -> int
    decreases s.len(),
{
    if s.len() == 0 {
        0
    } else if s[0] == ' ' {
        0
    } else {
        1 + spec_first_space(s.drop_first())
    }
}

/// What the first-space index means position by position.
pub proof fn lemma_first_space(s: Seq<char>)
    ensures
        0 <= spec_first_space(s) <= s.len(),
        forall|k: int| 0 <= k < spec_first_space(s) ==> s[k] != ' ',
        spec_first_space(s) < s.len() ==> s[spec_first_space(s)] == ' ',
    decreases s.len(),
{
    if s.len() > 0 && s[0] != ' ' {
        let rest = s.drop_first();
        lemma_first_space(rest);
        assert forall|k: int| 0 <= k < spec_first_space(s) implies s[k] != ' ' by {
            if k > 0 {
                assert(rest[k - 1] == s[k]);
            }
        }
        if spec_first_space(s) < s.len() {
            assert(rest[spec_first_space(rest)] == s[spec_first_space(s)]);
        }
    }
}

fn first_space(s: &str) -> (r: usize)
    ensures
        r as int == spec_first_space(s@),
        r as int <= s@.len(),
{
    proof {
        lemma_first_space(s@);
    }
    let n = s.unicode_len();
    let mut i: usize = 0;
    while i < n
        invariant_except_break
            n == s@.len(),
            0 <= i <= n,
            forall|k: int| 0 <= k < i ==> s@[k] != ' ',
            i <= spec_first_space(s@) <= n,
        ensures
            0 <= i <= n,
            i == spec_first_space(s@),
        decreases n - i,
    {
        proof {
            lemma_first_space(s@);
        }
        if s.get_char(i) == ' ' {
            break;
        }
        i = i + 1;
        proof {
            lemma_first_space(s@);
        }
    }
    i
}

/// The leading integer of a space-separated tag: the digits before its
/// first space.
pub open spec fn spec_first_token(s: Seq<char>) -> Seq<char> {
    s.take(spec_first_space(s))
}

/// What follows the first space of a tag, or nothing when it has none.
pub open spec fn spec_after_token(s: Seq<char>) -> Seq<char> {
    if spec_first_space(s) < s.len() {
        s.skip(spec_first_space(s) + 1)
    } else {
        Seq::empty()
    }
}

/// Parse the leading integer of a space-separated tag.
pub fn first_token_value(s: &str) -> (r: Option<i32>)
    ensures
        match r {
            Some(v) => v as int == spec_digits_val(spec_first_token(s@)) && all_digits(
                spec_first_token(s@),
            ) && spec_first_token(s@).len() > 0 && v >= 0,
            None => spec_first_token(s@).len() == 0 || !all_digits(spec_first_token(s@))
                || spec_digits_val(spec_first_token(s@)) > i32::MAX,
        },
{
    let sp = first_space(s);
    let head = s.substring_char(0, sp);
    proof {
        assert(head@ =~= spec_first_token(s@));
    }
    parse_digits(head)
}

/// Split a space-separated tag into its leading integer and the rest of
/// the tag.
pub fn split_first_token(s: &str) -> (r: Option<(i32, String)>)
    ensures
        match r {
            Some(v) => v.0 as int == spec_digits_val(spec_first_token(s@)) && all_digits(
                spec_first_token(s@),
            ) && spec_first_token(s@).len() > 0 && v.0 >= 0 && v.1@ == spec_after_token(s@),
            None => spec_first_token(s@).len() == 0 || !all_digits(spec_first_token(s@))
                || spec_digits_val(spec_first_token(s@)) > i32::MAX,
        },
{
    let sp = first_space(s);
    let n = s.unicode_len();
    let head = s.substring_char(0, sp);
    proof {
        assert(head@ =~= spec_first_token(s@));
    }
    match parse_digits(head) {
        Some(v) => {
            let rest = if sp < n {
                s.substring_char(sp + 1, n)
            } else {
                ""
            };
            proof {
                reveal_strlit("");
                assert(rest@ =~= spec_after_token(s@));
            }
            Some((v, rest.to_owned()))
        },
        None => None,
    }
}

/// The number of space-separated tokens of a tag: positions where a run of
/// non-space characters starts.
pub open spec fn spec_token_count(s: Seq<char>) -> int
    decreases s.len(),
{
    if s.len() == 0 {
        0
    } else {
        spec_token_count(s.drop_last()) + if s.last() != ' ' && (s.len() == 1 || s[s.len() - 2]
            == ' ') {
            1int
        } else {
            0int
        }
    }
}

/// Count the space-separated tokens of a tag.
pub fn token_count(s: &str) -> (r: usize)
    ensures
        r as int == spec_token_count(s@),
{
    let n = s.unicode_len();
    let mut count: usize = 0;
    let mut i: usize = 0;
    while i < n
        invariant
            n == s@.len(),
            0 <= i <= n,
            count as int == spec_token_count(s@.take(i as int)),
            count <= i,
        decreases n - i,
    {
        let c = s.get_char(i);
        let starts = c != ' ' && (i == 0 || s.get_char(i - 1) == ' ');
        if starts {
            count = count + 1;
        }
        proof {
            let taken = s@.take(i + 1);
            assert(taken.drop_last() =~= s@.take(i as int));
            assert(taken.last() == s@[i as int]);
            if i > 0 {
                assert(taken[i - 1] == s@[i - 1]);
            }
        }
        i = i + 1;
    }
    proof {
        assert(s@.take(n as int) =~= s@);
    }
    count
}


/// A tag has at most as many tokens as characters.
pub proof fn lemma_token_count_bound(s: Seq<char>)
    ensures
        0 <= spec_token_count(s) <= s.len(),
    decreases s.len(),
{
    if s.len() > 0 {
        lemma_token_count_bound(s.drop_last());
    }
}



/// Count of leading spaces.
pub open spec fn spec_lead(s: Seq<char>) -> int
    decreases s.len(),
{
    if s.len() == 0 {
        0
    } else if s[0] != ' ' {
        0
    } else {
        1 + spec_lead(s.drop_first())
    }
}

/// End of the content once trailing spaces are dropped.
pub open spec fn spec_trail(s: Seq<char>) -> int
    decreases s.len(),
{
    if s.len() == 0 {
        0
    } else if s.last() != ' ' {
        s.len() as int
    } else {
        spec_trail(s.drop_last())
    }
}

/// The string with leading and trailing spaces removed.
pub open spec fn spec_trim(s: Seq<char>) -> Seq<char> {
    if spec_lead(s) >= spec_trail(s) {
        Seq::empty()
    } else {
        s.subrange(spec_lead(s), spec_trail(s))
    }
}

/// What the leading and trailing space counts mean position by position.
pub proof fn lemma_lead_trail(s: Seq<char>)
    ensures
        0 <= spec_lead(s) <= s.len(),
        0 <= spec_trail(s) <= s.len(),
        forall|k: int| 0 <= k < spec_lead(s) ==> s[k] == ' ',
        spec_lead(s) < s.len() ==> s[spec_lead(s)] != ' ',
        spec_trail(s) > 0 ==> s[spec_trail(s) - 1] != ' ',
        forall|k: int| spec_trail(s) <= k < s.len() ==> s[k] == ' ',
    decreases s.len(),
{
    if s.len() > 0 {
        if s[0] == ' ' {
            let rest = s.drop_first();
            lemma_lead_trail(rest);
            assert forall|k: int| 0 <= k < spec_lead(s) implies s[k] == ' ' by {
                if k > 0 {
                    assert(rest[k - 1] == s[k]);
                }
            }
            if spec_lead(s) < s.len() {
                assert(rest[spec_lead(s) - 1] == s[spec_lead(s)]);
            }
        }
        if s.last() == ' ' {
            let rest = s.drop_last();
            lemma_lead_trail(rest);
            assert forall|k: int| spec_trail(s) <= k < s.len() implies s[k] == ' ' by {
                if k < s.len() - 1 {
                    assert(rest[k] == s[k]);
                }
            }
            if spec_trail(s) > 0 {
                assert(rest[spec_trail(s) - 1] == s[spec_trail(s) - 1]);
            }
        }
        if s[0] != ' ' {
        }
        if s.last() != ' ' {
        }
    }
}

/// Remove leading and trailing spaces.
pub fn trim_spaces<'a>(s: &'a str) -> (r: &'a str)
    ensures
        r@ == spec_trim(s@),
{
    proof {
        lemma_lead_trail(s@);
    }
    let n = s.unicode_len();
    let mut lead: usize = 0;
    while lead < n
        invariant_except_break
            n == s@.len(),
            0 <= lead <= n,
            forall|k: int| 0 <= k < lead ==> s@[k] == ' ',
            lead <= spec_lead(s@) <= n,
        ensures
            0 <= lead <= n,
            lead == spec_lead(s@),
        decreases n - lead,
    {
        proof {
            lemma_lead_trail(s@);
        }
        if s.get_char(lead) != ' ' {
            break;
        }
        lead = lead + 1;
        proof {
            lemma_lead_trail(s@);
            if lead > spec_lead(s@) {
                assert(s@[spec_lead(s@)] == ' ');
                assert(false);
            }
        }
    }
    let mut trail: usize = n;
    while trail > 0
        invariant_except_break
            n == s@.len(),
            0 <= trail <= n,
            forall|k: int| trail <= k < n ==> s@[k] == ' ',
            0 <= spec_trail(s@) <= trail,
        ensures
            0 <= trail <= n,
            trail == spec_trail(s@),
        decreases trail,
    {
        proof {
            lemma_lead_trail(s@);
        }
        if s.get_char(trail - 1) != ' ' {
            proof {
                if trail > spec_trail(s@) {
                    assert(s@[trail - 1] == ' ');
                }
            }
            break;
        }
        trail = trail - 1;
        proof {
            lemma_lead_trail(s@);
            if trail < spec_trail(s@) {
                assert(s@[spec_trail(s@) - 1] != ' ');
                assert(false);
            }
        }
    }
    proof {
        lemma_lead_trail(s@);
    }
    if lead >= trail {
        proof {
            reveal_strlit("");
            assert(""@ =~= spec_trim(s@));
        }
        ""
    } else {
        let r = s.substring_char(lead, trail);
        proof {
            assert(r@ =~= spec_trim(s@));
        }
        r
    }
}

/// Index of the first closing parenthesis, or the length when none.
pub open spec fn spec_first_close(s: Seq<char>) -> int
    decreases s.len(),
{
    if s.len() == 0 {
        0
    } else if s[0] == ')' {
        0
    } else {
        1 + spec_first_close(s.drop_first())
    }
}

/// What the first-closing-parenthesis index means position by position.
pub proof fn lemma_first_close(s: Seq<char>)
    ensures
        0 <= spec_first_close(s) <= s.len(),
        forall|k: int| 0 <= k < spec_first_close(s) ==> s[k] != ')',
        spec_first_close(s) < s.len() ==> s[spec_first_close(s)] == ')',
    decreases s.len(),
{
    if s.len() > 0 && s[0] != ')' {
        let rest = s.drop_first();
        lemma_first_close(rest);
        assert forall|k: int| 0 <= k < spec_first_close(s) implies s[k] != ')' by {
            if k > 0 {
                assert(rest[k - 1] == s[k]);
            }
        }
        if spec_first_close(s) < s.len() {
            assert(rest[spec_first_close(s) - 1] == s[spec_first_close(s)]);
        }
    }
}

/// Whether a tag has the parenthesised shape `(y) rest` with a usable
/// leading number.
pub open spec fn paren_ok(s: Seq<char>) -> bool {
    &&& s.len() > 0
    &&& s[0] == '('
    &&& spec_first_close(s) < s.len()
    &&& spec_paren_digits(s).len() > 0
    &&& all_digits(spec_paren_digits(s))
    &&& spec_digits_val(spec_paren_digits(s)) <= i32::MAX
}

/// The digits between the parentheses.
pub open spec fn spec_paren_digits(s: Seq<char>) -> Seq<char> {
    s.subrange(1, spec_first_close(s))
}

/// The leading number of a parenthesised tag.
pub open spec fn spec_paren_y(s: Seq<char>) -> int {
    spec_digits_val(spec_paren_digits(s))
}

/// What follows the closing parenthesis, trimmed.
pub open spec fn spec_paren_rest(s: Seq<char>) -> Seq<char> {
    spec_trim(s.skip(spec_first_close(s) + 1))
}

fn first_close(s: &str) -> (r: usize)
    ensures
        r as int == spec_first_close(s@),
        r as int <= s@.len(),
{
    proof {
        lemma_first_close(s@);
    }
    let n = s.unicode_len();
    let mut i: usize = 0;
    while i < n
        invariant_except_break
            n == s@.len(),
            0 <= i <= n,
            forall|k: int| 0 <= k < i ==> s@[k] != ')',
            i <= spec_first_close(s@) <= n,
        ensures
            0 <= i <= n,
            i == spec_first_close(s@),
        decreases n - i,
    {
        proof {
            lemma_first_close(s@);
        }
        if s.get_char(i) == ')' {
            break;
        }
        i = i + 1;
    }
    i
}

/// Split a parenthesised tag `(y) rest` into its leading number and the
/// trimmed remainder.
pub fn split_paren(s: &str) -> (r: Option<(i32, String)>)
    ensures
        match r {
            Some(v) => paren_ok(s@) && v.0 as int == spec_paren_y(s@) && v.0 >= 0 && v.1@
                == spec_paren_rest(s@),
            None => !paren_ok(s@),
        },
{
    let n = s.unicode_len();
    if n == 0 {
        return None;
    }
    if s.get_char(0) != '(' {
        return None;
    }
    let close = first_close(s);
    if close >= n {
        proof {
            lemma_first_close(s@);
        }
        return None;
    }
    proof {
        lemma_first_close(s@);
        assert(s@[spec_first_close(s@)] == ')');
        assert(spec_first_close(s@) >= 1);
    }
    let digits = s.substring_char(1, close);
    proof {
        assert(digits@ =~= spec_paren_digits(s@));
    }
    match parse_digits(digits) {
        Some(v) => {
            let rest = s.substring_char(close + 1, n);
            proof {
                assert(rest@ =~= s@.skip(spec_first_close(s@) + 1));
            }
            let trimmed = trim_spaces(rest);
            Some((v, trimmed.to_owned()))
        },
        None => None,
    }
}


} // verus!
