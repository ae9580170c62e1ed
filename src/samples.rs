//! Stateless sample calls. Each runs an operation that yields a value or a
//! failure, and hands the outcome through the boundary translator.
use vstd::prelude::*;
use crate::boundary::{guard, ExceptionKind, ExceptionRecord, FailureValue, ORIGIN_TAG};
use crate::text::{decimal, push_char, push_decimal, split_char, split_on, upper_of, uppercase, views};

verus! {

/// What an addition that leaves its integer type aborts with.
pub const ADD_OVERFLOW: &'static str = "attempt to add with overflow";

/// What a multiplication that leaves its integer type aborts with.
pub const MUL_OVERFLOW: &'static str = "attempt to multiply with overflow";

/// The text of the failure that `greater_than_2` reports.
pub const NOT_GREATER_THAN_2: &'static str = "number is less than or equal to 2";

/// `r` is the exception record of the given kind and message.
pub open spec fn raises<T>(r: Result<T, ExceptionRecord>, kind: ExceptionKind, message: Seq<char>) -> bool {
    &&& r is Err
    &&& r->Err_0.kind == kind
    &&& r->Err_0.message@ == message
}

/// `o` is a fatal failure with the given text.
pub open spec fn aborts_with<T>(o: Result<T, FailureValue>, message: Seq<char>) -> bool {
    o matches Err(FailureValue::Fatal(m)) && m@ == message
}

// ---------------------------------------------------------------- arithmetic

/// `a * b`, or an abort where the product leaves `isize`.
pub fn multiply(a: isize, b: isize) -> (r: Result<isize, ExceptionRecord>)
    ensures
        isize::MIN <= a * b <= isize::MAX ==> r == Ok::<isize, ExceptionRecord>((a * b) as isize),
        !(isize::MIN <= a * b <= isize::MAX) ==> raises(
            r,
            ExceptionKind::InternalAbort,
            MUL_OVERFLOW@,
        ),
{
    let o = match a.checked_mul(b) {
        Some(p) => Ok(p),
        None => Err(FailureValue::Fatal(String::from_str(MUL_OVERFLOW))),
    };
    guard(o)
}

/// The sum of `s`.
pub open spec fn sum(s: Seq<isize>) -> int
    decreases s.len(),
{
    if s.len() == 0 {
        0
    } else {
        sum(s.drop_last()) + s.last()
    }
}

/// Every running sum of `s`, taken from the front, fits in `isize`.
pub open spec fn running_sums_fit(s: Seq<isize>) -> bool {
    forall|k: int| 0 <= k <= s.len() ==> isize::MIN <= #[trigger] sum(s.take(k)) <= isize::MAX
}

/// The sum of `a`, added from the front; where a running sum leaves `isize`,
/// an abort.
pub fn list_sum(a: Vec<isize>) -> (r: Result<isize, ExceptionRecord>)
    ensures
        running_sums_fit(a@) ==> r == Ok::<isize, ExceptionRecord>(sum(a@) as isize),
        !running_sums_fit(a@) ==> raises(r, ExceptionKind::InternalAbort, ADD_OVERFLOW@),
{
    let mut total: isize = 0;
    let mut i: usize = 0;
    while i < a.len()
        invariant
            i <= a.len(),
            total == sum(a@.take(i as int)),
            forall|k: int| 0 <= k <= i ==> isize::MIN <= #[trigger] sum(a@.take(k)) <= isize::MAX,
        decreases a.len() - i,
    {
        assert(a@.take(i + 1).drop_last() == a@.take(i as int));
        match total.checked_add(a[i]) {
            Some(t) => total = t,
            None => {
                assert(sum(a@.take(i + 1)) == total + a[i as int]);
                assert(!running_sums_fit(a@));
                return guard(Err(FailureValue::Fatal(String::from_str(ADD_OVERFLOW))));
            },
        }
        i = i + 1;
    }
    assert(a@.take(i as int) == a@);
    guard(Ok(total))
}

/// The decimal notation of `a + b`, or an abort where the sum leaves `usize`.
pub fn sum_as_string(a: usize, b: usize) -> (r: Result<String, ExceptionRecord>)
    ensures
        a + b <= usize::MAX ==> r is Ok && r->Ok_0@ == decimal((a + b) as nat),
        a + b > usize::MAX ==> raises(r, ExceptionKind::InternalAbort, ADD_OVERFLOW@),
{
    let o = match a.checked_add(b) {
        Some(n) => {
            let mut s = String::new();
            push_decimal(&mut s, n as u128);
            Ok(s)
        },
        None => Err(FailureValue::Fatal(String::from_str(ADD_OVERFLOW))),
    };
    guard(o)
}

// ---------------------------------------------------------------- domain check

/// `number` itself where it is above 2; below that, a domain error.
pub fn greater_than_2(number: isize) -> (r: Result<isize, ExceptionRecord>)
    ensures
        number > 2 ==> r == Ok::<isize, ExceptionRecord>(number),
        number <= 2 ==> raises(r, ExceptionKind::DomainError, ORIGIN_TAG@ + NOT_GREATER_THAN_2@),
{
    let o = if number <= 2 {
        Err(FailureValue::Recoverable(String::from_str(NOT_GREATER_THAN_2)))
    } else {
        Ok(number)
    };
    guard(o)
}

// ---------------------------------------------------------------- first byte

/// What an access to the first byte of an empty sequence aborts with.
pub const EMPTY_INDEX: &'static str = "index out of bounds: the len is 0 but the index is 0";

/// Put before the bytes in the abort of `panic_test`.
pub const FANCY_PREFIX: &'static str = "this is a fancy ";

/// The bytes of `s` in decimal, separated by a comma and a space.
pub open spec fn list_body(s: Seq<u8>) -> Seq<char>
    decreases s.len(),
{
    if s.len() == 0 {
        Seq::empty()
    } else if s.len() == 1 {
        decimal(s[0] as nat)
    } else {
        list_body(s.drop_last()) + seq![',', ' '] + decimal(s.last() as nat)
    }
}

/// The bytes of `s` written as a bracketed list, as in `[1, 2, 3]`.
pub open spec fn byte_list(s: Seq<u8>) -> Seq<char> {
    seq!['['] + list_body(s) + seq![']']
}

/// Writes `data` as a bracketed list of decimal bytes.
pub fn byte_list_text(data: &[u8]) -> (r: String)
    ensures
        r@ == byte_list(data@),
{
    let mut s = String::new();
    push_char(&mut s, '[');
    let mut i: usize = 0;
    while i < data.len()
        invariant
            i <= data@.len(),
            s@ == seq!['['] + list_body(data@.take(i as int)),
        decreases data.len() - i,
    {
        assert(data@.take(i + 1).drop_last() == data@.take(i as int));
        if i > 0 {
            push_char(&mut s, ',');
            push_char(&mut s, ' ');
        }
        push_decimal(&mut s, data[i] as u128);
        proof {
            if i == 0 {
                assert(s@ =~= seq!['['] + list_body(data@.take(i + 1)));
            } else {
                assert(s@ =~= seq!['['] + list_body(data@.take(i + 1)));
            }
        }
        i = i + 1;
    }
    push_char(&mut s, ']');
    assert(data@.take(i as int) == data@);
    s
}

/// Whether the first byte of `data` is below 20; a first byte below 6 is an
/// invariant violation, and so is an empty `data`.
pub fn panic_test(data: &[u8]) -> (r: Result<bool, ExceptionRecord>)
    ensures
        data@.len() == 0 ==> raises(r, ExceptionKind::InternalAbort, EMPTY_INDEX@),
        data@.len() > 0 && data@[0] < 6 ==> raises(
            r,
            ExceptionKind::InternalAbort,
            FANCY_PREFIX@ + byte_list(data@),
        ),
        data@.len() > 0 && data@[0] >= 6 ==> r == Ok::<bool, ExceptionRecord>(data@[0] < 20),
{
    let o = if data.len() == 0 {
        Err(FailureValue::Fatal(String::from_str(EMPTY_INDEX)))
    } else if data[0] < 6 {
        let mut m = String::from_str(FANCY_PREFIX);
        let list = byte_list_text(data);
        m.append(list.as_str());
        Err(FailureValue::Fatal(m))
    } else {
        Ok(data[0] < 20)
    };
    guard(o)
}

// ---------------------------------------------------------------- fibonacci

/// The Fibonacci numbers, starting 0, 1, 1, 2.
pub open spec fn fib(n: nat) -> nat
    decreases n,
{
    if n == 0 {
        0
    } else if n == 1 {
        1
    } else {
        fib((n - 1) as nat) + fib((n - 2) as nat)
    }
}

/// What `get_fibonacci` answers for `number`: 1 for 1, 2 for 2, the Fibonacci
/// number itself above that, and 0 for anything below 1.
pub open spec fn fibonacci_answer(number: int) -> nat {
    if number == 1 {
        1
    } else if number == 2 {
        2
    } else if number < 1 {
        0
    } else {
        fib(number as nat)
    }
}

proof fn lemma_fib_monotonic(a: nat, b: nat)
    requires
        a <= b,
    ensures
        fib(a) <= fib(b),
    decreases b,
{
    if a < b {
        lemma_fib_monotonic(a, (b - 1) as nat);
    }
}

fn fibonacci_outcome(number: isize) -> (o: Result<u128, FailureValue>)
    ensures
        fibonacci_answer(number as int) <= u128::MAX ==> o == Ok::<u128, FailureValue>(
            fibonacci_answer(number as int) as u128,
        ),
        fibonacci_answer(number as int) > u128::MAX ==> aborts_with(o, ADD_OVERFLOW@),
{
    if number == 1 {
        return Ok(1);
    } else if number == 2 {
        return Ok(2);
    }
    let mut sum: u128 = 0;
    let mut last: u128 = 0;
    let mut curr: u128 = 1;
    let mut i: isize = 1;
    while i < number
        invariant
            1 <= i,
            number >= 1 ==> i <= number,
            number < 1 ==> i == 1,
            i == 1 ==> sum == 0,
            i > 1 ==> sum == fib(i as nat),
            last == fib((i - 1) as nat),
            curr == fib(i as nat),
        decreases number - i,
    {
        proof {
            lemma_fib_monotonic((i + 1) as nat, number as nat);
        }
        match last.checked_add(curr) {
            Some(s) => sum = s,
            None => return Err(FailureValue::Fatal(String::from_str(ADD_OVERFLOW))),
        }
        last = curr;
        curr = sum;
        i = i + 1;
    }
    Ok(sum)
}

/// The Fibonacci answer for `number` (see `fibonacci_answer`); an answer that
/// does not fit in 128 bits aborts with an addition overflow.
pub fn get_fibonacci(number: isize) -> (r: Result<u128, ExceptionRecord>)
    ensures
        fibonacci_answer(number as int) <= u128::MAX ==> r == Ok::<u128, ExceptionRecord>(
            fibonacci_answer(number as int) as u128,
        ),
        fibonacci_answer(number as int) > u128::MAX ==> raises(
            r,
            ExceptionKind::InternalAbort,
            ADD_OVERFLOW@,
        ),
{
    guard(fibonacci_outcome(number))
}

// ---------------------------------------------------------------- words

/// The word that `word_printer` prints: reversed first if asked, then put in
/// upper case if asked.
pub open spec fn shaped_word(word: Seq<char>, reverse: bool, upper: bool) -> Seq<char> {
    let w = if reverse {
        word.reverse()
    } else {
        word
    };
    if upper {
        upper_of(w)
    } else {
        w
    }
}

/// The characters of `s` in reverse order.
pub fn reversed(s: &str) -> (r: String)
    ensures
        r@ == s@.reverse(),
{
    let mut chars: Vec<char> = Vec::new();
    for c in it: s.chars()
        invariant
            it.seq() == s@,
            chars@ == s@.take(it.index() as int),
    {
        chars.push(c);
        proof {
            assert(chars@ == s@.take(it.index() as int + 1));
        }
    }
    let n = chars.len();
    let mut out = String::new();
    let mut k: usize = n;
    while k > 0
        invariant
            n == chars.len(),
            chars@ == s@,
            k <= n,
            out@ == Seq::new((n - k) as nat, |i: int| chars@[n - 1 - i]),
        decreases k,
    {
        k = k - 1;
        push_char(&mut out, chars[k]);
        proof {
            assert(out@ =~= Seq::new((n - k) as nat, |i: int| chars@[n - 1 - i]));
        }
    }
    proof {
        assert(out@ =~= s@.reverse());
    }
    out
}

/// Shapes the word that `word_printer` prints.
pub fn printed_word(word: String, reverse: bool, uppercase_it: bool) -> (r: String)
    ensures
        r@ == shaped_word(word@, reverse, uppercase_it),
{
    let w = if reverse {
        reversed(word.as_str())
    } else {
        word
    };
    if uppercase_it {
        uppercase(w.as_str())
    } else {
        w
    }
}

// ---------------------------------------------------------------- occurrences

/// A line without the carriage return of a `\r\n` ending.
pub open spec fn strip_cr(l: Seq<char>) -> Seq<char> {
    if l.len() > 0 && l.last() == '\r' {
        l.drop_last()
    } else {
        l
    }
}

/// The lines of `s`: the pieces between newlines, each without the carriage
/// return that stood before its newline; a text that ends with a newline has
/// no empty line after it, and the empty text has no line.
pub open spec fn lines_of(s: Seq<char>) -> Seq<Seq<char>> {
    let pieces = split_on(s, '\n');
    let ended = pieces.drop_last().map_values(|l: Seq<char>| strip_cr(l));
    if pieces.last().len() == 0 {
        ended
    } else {
        ended.push(pieces.last())
    }
}

/// A word counts when it is the needle, or the needle followed by a full stop.
pub open spec fn word_matches(w: Seq<char>, needle: Seq<char>) -> bool {
    w == needle || w == needle.push('.')
}

/// How many of `words` count for `needle`.
pub open spec fn count_words(words: Seq<Seq<char>>, needle: Seq<char>) -> nat
    decreases words.len(),
{
    if words.len() == 0 {
        0
    } else {
        count_words(words.drop_last(), needle) + if word_matches(words.last(), needle) {
            1nat
        } else {
            0nat
        }
    }
}

/// How many of the space-separated words of `lines` count for `needle`.
pub open spec fn count_lines(lines: Seq<Seq<char>>, needle: Seq<char>) -> nat
    decreases lines.len(),
{
    if lines.len() == 0 {
        0
    } else {
        count_lines(lines.drop_last(), needle) + count_words(split_on(lines.last(), ' '), needle)
    }
}

/// How often `needle` occurs as a word of `contents`.
pub open spec fn occurrences(contents: Seq<char>, needle: Seq<char>) -> nat {
    count_lines(lines_of(contents), needle)
}

proof fn lemma_count_words_prefix(words: Seq<Seq<char>>, needle: Seq<char>, j: int)
    requires
        0 <= j <= words.len(),
    ensures
        count_words(words.take(j), needle) <= count_words(words, needle),
    decreases words.len(),
{
    if j < words.len() {
        assert(words.drop_last().take(j) == words.take(j));
        lemma_count_words_prefix(words.drop_last(), needle, j);
    } else {
        assert(words.take(j) == words);
    }
}

proof fn lemma_count_lines_prefix(lines: Seq<Seq<char>>, needle: Seq<char>, k: int)
    requires
        0 <= k <= lines.len(),
    ensures
        count_lines(lines.take(k), needle) <= count_lines(lines, needle),
    decreases lines.len(),
{
    if k < lines.len() {
        assert(lines.drop_last().take(k) == lines.take(k));
        lemma_count_lines_prefix(lines.drop_last(), needle, k);
    } else {
        assert(lines.take(k) == lines);
    }
}

/// Drops one carriage return at the end of `l`.
fn without_cr(l: &str) -> (r: &str)
    ensures
        r@ == strip_cr(l@),
{
    let n = l.unicode_len();
    if n > 0 && l.get_char(n - 1) == '\r' {
        l.substring_char(0, n - 1)
    } else {
        l
    }
}

/// Adds to `total` the words of `line` that count for `needle`, where `dotted`
/// is the needle followed by a full stop.
fn count_in_line(line: &str, needle: &String, dotted: &String, total: usize) -> (o: Result<
    usize,
    FailureValue,
>)
    requires
        dotted@ == needle@.push('.'),
    ensures
        total + count_words(split_on(line@, ' '), needle@) <= usize::MAX ==> o == Ok::<
            usize,
            FailureValue,
        >((total + count_words(split_on(line@, ' '), needle@)) as usize),
        total + count_words(split_on(line@, ' '), needle@) > usize::MAX ==> aborts_with(
            o,
            ADD_OVERFLOW@,
        ),
{
    let words = split_char(line, ' ');
    let ghost ws = split_on(line@, ' ');
    let mut count = total;
    let mut j: usize = 0;
    while j < words.len()
        invariant
            views(words@) == ws,
            ws == split_on(line@, ' '),
            j <= words.len(),
            count == total + count_words(ws.take(j as int), needle@),
            dotted@ == needle@.push('.'),
        decreases words.len() - j,
    {
        let ghost w = words@[j as int]@;
        assert(ws[j as int] == w);
        assert(ws.take(j + 1).drop_last() == ws.take(j as int));
        assert(ws.take(j + 1).last() == w);
        if words[j] == *needle || words[j] == *dotted {
            proof {
                lemma_count_words_prefix(ws, needle@, j + 1);
                assert(word_matches(w, needle@));
                assert(count_words(ws.take(j + 1), needle@) == count_words(ws.take(j as int), needle@)
                    + 1);
            }
            match count.checked_add(1) {
                Some(c) => count = c,
                None => {
                    return Err(FailureValue::Fatal(String::from_str(ADD_OVERFLOW)));
                },
            }
        }
        j = j + 1;
    }
    assert(ws.take(j as int) == ws);
    Ok(count)
}

fn occurrences_outcome(contents: &str, needle: &str) -> (o: Result<usize, FailureValue>)
    ensures
        occurrences(contents@, needle@) <= usize::MAX ==> o == Ok::<usize, FailureValue>(
            occurrences(contents@, needle@) as usize,
        ),
        occurrences(contents@, needle@) > usize::MAX ==> aborts_with(o, ADD_OVERFLOW@),
{
    let target = String::from_str(needle);
    let mut dotted = String::from_str(needle);
    push_char(&mut dotted, '.');
    let pieces = split_char(contents, '\n');
    let ghost ps = split_on(contents@, '\n');
    let ghost lines = lines_of(contents@);
    proof {
        crate::text::lemma_split_on_nonempty(contents@, '\n');
    }
    let last = pieces.len() - 1;
    let mut count: usize = 0;
    let mut k: usize = 0;
    while k < last
        invariant
            views(pieces@) == ps,
            last == pieces.len() - 1,
            pieces.len() >= 1,
            lines == lines_of(contents@),
            ps == split_on(contents@, '\n'),
            k <= last,
            count == count_lines(lines.take(k as int), needle@),
            target@ == needle@,
            dotted@ == needle@.push('.'),
        decreases last - k,
    {
        assert(lines[k as int] == strip_cr(pieces@[k as int]@));
        let line = without_cr(pieces[k].as_str());
        assert(lines.take(k + 1).drop_last() == lines.take(k as int));
        proof {
            lemma_count_lines_prefix(lines, needle@, k + 1);
        }
        match count_in_line(line, &target, &dotted, count) {
            Ok(c) => count = c,
            Err(f) => return Err(f),
        }
        k = k + 1;
    }
    if pieces[last].unicode_len() > 0 {
        assert(lines.len() == k + 1);
        assert(lines[k as int] == pieces@[last as int]@);
        assert(lines.drop_last() == lines.take(k as int));
        assert(count_lines(lines, needle@) == count + count_words(
            split_on(pieces@[last as int]@, ' '),
            needle@,
        ));
        match count_in_line(pieces[last].as_str(), &target, &dotted, count) {
            Ok(c) => count = c,
            Err(f) => return Err(f),
        }
    } else {
        assert(lines.take(k as int) == lines);
    }
    Ok(count)
}

/// How often `needle` occurs in `contents` as a word of a line, either alone or
/// followed by a full stop. Words are separated by single spaces.
pub fn count_occurences(contents: &str, needle: &str) -> (r: Result<usize, ExceptionRecord>)
    ensures
        occurrences(contents@, needle@) <= usize::MAX ==> r == Ok::<usize, ExceptionRecord>(
            occurrences(contents@, needle@) as usize,
        ),
        occurrences(contents@, needle@) > usize::MAX ==> raises(
            r,
            ExceptionKind::InternalAbort,
            ADD_OVERFLOW@,
        ),
{
    guard(occurrences_outcome(contents, needle))
}

} // verus!
