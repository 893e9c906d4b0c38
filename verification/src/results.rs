//! Where the results of a run go and when its commit was made.
use vstd::prelude::*;

use crate::text::{
    ascii_bytes, byte_digits, chars_of, decimal, digit_values, digits_value, is_digit_byte,
    lemma_decimal_bytes, lemma_decimal_reads_back, push_char,
};

verus! {

/// The folders, from the top, of the results of `commit` under `out`: the
/// commit's first character, its second one, then the commit itself.
pub open spec fn folders_of(out: Seq<char>, commit: Seq<char>) -> Seq<Seq<char>> {
    seq![out, seq![commit[0]], seq![commit[1]], commit]
}

/// The folders, from the top, where the results of `commit` are written
/// under `out`; `None` where the commit has fewer than two characters.
pub fn result_folders(out: &str, commit: &str) -> (folders: Option<Vec<String>>)
    ensures
        folders is None <==> commit@.len() < 2,
        folders matches Some(v) ==> crate::texts(v@) == folders_of(out@, commit@),
{
    let cs = chars_of(commit);
    if cs.len() < 2 {
        return None;
    }
    let mut first = String::new();
    push_char(&mut first, cs[0]);
    let mut second = String::new();
    push_char(&mut second, cs[1]);
    let mut folders: Vec<String> = Vec::new();
    folders.push(out.to_owned());
    folders.push(first);
    folders.push(second);
    folders.push(commit.to_owned());
    assert(crate::texts(folders@) =~= folders_of(out@, commit@));
    Some(folders)
}

/// The output of a command without the line break that ends it: all but the
/// last byte.
pub open spec fn without_last_byte(bs: Seq<u8>) -> Seq<u8> {
    if bs.len() == 0 {
        bs
    } else {
        bs.drop_last()
    }
}

/// The digits of an unsigned number's text: without a leading '+' where
/// there is one and more follows.
pub open spec fn unsigned_digits(bs: Seq<u8>) -> Option<Seq<u8>> {
    if bs.len() > 0 && bs[0] == 43 {
        if bs.len() == 1 {
            None
        } else {
            Some(bs.drop_first())
        }
    } else {
        Some(bs)
    }
}

/// The number that the text `bs` writes in decimal (as `u128::from_str`
/// reads it), if it writes one that fits in a `u128`.
pub open spec fn read_u128(bs: Seq<u8>) -> Option<nat> {
    match unsigned_digits(bs) {
        Some(ds) => if ds.len() > 0 && (forall|i: int| 0 <= i < ds.len() ==> is_digit_byte(
            #[trigger] ds[i],
        )) && digits_value(byte_digits(ds)) <= u128::MAX {
            Some(digits_value(byte_digits(ds)))
        } else {
            None
        },
        None => None,
    }
}

/// The time in milliseconds of the commit time written, in seconds, by
/// `git show --format=%ct` on `stdout`; `None` where the output does not
/// write such a time or the milliseconds do not fit in a `u128`.
pub open spec fn commit_ms_of(stdout: Seq<u8>) -> Option<u128> {
    match read_u128(without_last_byte(stdout)) {
        Some(s) => if s * 1000 <= u128::MAX {
            Some((s * 1000) as u128)
        } else {
            None
        },
        None => None,
    }
}

/// The commit time that `git show` writes as the decimal number of seconds
/// `n` followed by a line break is read as `n` thousand milliseconds, for
/// every `n` whose milliseconds fit.
pub proof fn lemma_commit_time_reads_back(n: nat)
    requires
        n * 1000 <= u128::MAX,
    ensures
        commit_ms_of(ascii_bytes(decimal(n)).push(10u8)) == Some((n * 1000) as u128),
{
    let ds = ascii_bytes(decimal(n));
    lemma_decimal_bytes(n);
    lemma_decimal_reads_back(n);
    assert(without_last_byte(ds.push(10u8)) =~= ds);
    assert(is_digit_byte(ds[0]));
    assert(unsigned_digits(ds) == Some(ds));
    assert(digits_value(byte_digits(ds)) == n);
    assert(read_u128(ds) == Some(n));
}

/// The results of a commit go under its first and second characters, then
/// the commit, inside `out`.
pub proof fn lemma_result_folders_text(out: Seq<char>, commit: Seq<char>)
    requires
        commit.len() >= 2,
    ensures
        folders_of(out, commit).len() == 4,
        folders_of(out, commit)[0] == out,
        folders_of(out, commit)[1] == commit.take(1),
        folders_of(out, commit)[2] == commit.subrange(1, 2),
        folders_of(out, commit)[3] == commit,
{
    assert(seq![commit[0]] =~= commit.take(1));
    assert(seq![commit[1]] =~= commit.subrange(1, 2));
}

/// A number is read only from decimal digits, with at most a leading '+'
/// before them, and a commit time only from such a number followed by one
/// more byte; the milliseconds are a thousand times the seconds.
pub proof fn lemma_commit_time_meaning(bs: Seq<u8>, last: u8)
    ensures
        without_last_byte(bs.push(last)) == bs,
        read_u128(bs) is Some ==> bs.len() > 0 && forall|i: int|
            0 <= i < bs.len() ==> is_digit_byte(#[trigger] bs[i]) || (i == 0 && bs[0] == 43
                && bs.len() > 1),
        commit_ms_of(bs.push(last)) matches Some(ms) ==> read_u128(bs) == Some(
            (ms / 1000) as nat,
        ) && ms % 1000 == 0,
{
    assert(bs.push(last).drop_last() =~= bs);
    if read_u128(bs) is Some {
        if bs.len() > 0 && bs[0] == 43 {
            let ds = bs.drop_first();
            assert forall|i: int| 0 <= i < bs.len() implies is_digit_byte(#[trigger] bs[i]) || (i
                == 0 && bs[0] == 43 && bs.len() > 1) by {
                if i > 0 {
                    assert(bs[i] == ds[i - 1]);
                }
            }
        }
    }
}

/// A '+' before digits does not change the number read.
pub proof fn lemma_plus_sign_ignored(bs: Seq<u8>)
    requires
        bs.len() > 0,
        bs[0] != 43,
    ensures
        read_u128(seq![43u8] + bs) == read_u128(bs),
{
    assert((seq![43u8] + bs).drop_first() =~= bs);
}

/// A longer run of digits is worth at least as much as its beginning.
proof fn lemma_digits_value_grows(ds: Seq<int>, a: int, b: int)
    requires
        0 <= a <= b <= ds.len(),
        forall|i: int| 0 <= i < ds.len() ==> 0 <= #[trigger] ds[i] <= 9,
    ensures
        digits_value(ds.take(a)) <= digits_value(ds.take(b)),
    decreases b - a,
{
    if a < b {
        lemma_digits_value_grows(ds, a, b - 1);
        assert(ds.take(b).drop_last() =~= ds.take(b - 1));
        assert(ds.take(b).last() == ds[b - 1]);
    }
}

/// The time in milliseconds of the commit time in seconds that `git show`
/// wrote on `stdout`.
pub fn commit_time_ms(stdout: &Vec<u8>) -> (ms: Option<u128>)
    ensures
        ms == commit_ms_of(stdout@),
{
    let text = without_last_byte_exec(stdout);
    let mut start: usize = 0;
    if text.len() > 0 && text[0] == 43 {
        if text.len() == 1 {
            return None;
        }
        start = 1;
    }
    let ghost ds = if start == 1 {
        text@.drop_first()
    } else {
        text@
    };
    assert(unsigned_digits(text@) == Some(ds));
    if start == text.len() {
        return None;
    }
    let mut value: u128 = 0;
    let mut i: usize = start;
    while i < text.len()
        invariant
            start <= i <= text.len(),
            start < text.len(),
            text@ == without_last_byte(stdout@),
            unsigned_digits(text@) == Some(ds),
            ds == text@.skip(start as int),
            forall|k: int| 0 <= k < i - start ==> is_digit_byte(#[trigger] ds[k]),
            value == digits_value(byte_digits(ds).take(i - start)),
        decreases text.len() - i,
    {
        let b = text[i];
        let ghost k = i - start;
        assert(ds[k] == b);
        if b < 48 || b > 57 {
            assert(!is_digit_byte(ds[k]));
            return None;
        }
        let d = (b - 48) as u128;
        assert(byte_digits(ds).take(k + 1).drop_last() =~= byte_digits(ds).take(k));
        assert(byte_digits(ds).take(k + 1).last() == d);
        let ghost whole = byte_digits(ds);
        let next = match value.checked_mul(10) {
            Some(tens) => tens.checked_add(d),
            None => None,
        };
        match next {
            Some(n) => {
                value = n;
            },
            None => {
                proof {
                    assert(k + 1 <= whole.len());
                    assert(digits_value(whole.take(k + 1)) > u128::MAX);
                    if forall|j: int| 0 <= j < ds.len() ==> is_digit_byte(#[trigger] ds[j]) {
                        assert forall|j: int| 0 <= j < whole.len() implies 0 <= #[trigger] whole[j]
                            <= 9 by {
                            assert(is_digit_byte(ds[j]));
                        }
                        lemma_digits_value_grows(whole, k + 1, whole.len() as int);
                        assert(whole.take(whole.len() as int) =~= whole);
                    }
                }
                return None;
            },
        }
        i = i + 1;
    }
    assert(byte_digits(ds).take(ds.len() as int) =~= byte_digits(ds));
    value.checked_mul(1000)
}

/// All but the last byte of `bs`.
fn without_last_byte_exec(bs: &Vec<u8>) -> (r: Vec<u8>)
    ensures
        r@ == without_last_byte(bs@),
{
    let mut r = bs.clone();
    r.pop();
    assert(r@ =~= without_last_byte(bs@));
    r
}

} // verus!
