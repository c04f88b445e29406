//! Starter programs written in tetragram symbols.

use vstd::prelude::*;
use crate::alphabet::{push_char, spells, symbol_for_digit};

verus! {

/// The digits `0, 1, ..., n - 1`.
pub open spec fn digit_run(n: nat) -> Seq<u8> {
    Seq::new(n, |i: int| i as u8)
}

/// `d` repeated `k` times.
pub open spec fn repeated(d: Seq<u8>, k: nat) -> Seq<u8>
    decreases k,
{
    if k == 0 {
        seq![]
    } else {
        repeated(d, (k - 1) as nat) + d
    }
}

/// `r` is the text `head`, then the symbols that spell `digits`, then the
/// text `foot`.
pub open spec fn framed(r: Seq<char>, head: Seq<char>, digits: Seq<u8>, foot: Seq<char>) -> bool {
    let body_end = head.len() + digits.len();
    &&& r.len() == body_end + foot.len()
    &&& r.subrange(0, head.len() as int) == head
    &&& spells(r.subrange(head.len() as int, body_end as int), digits)
    &&& r.subrange(body_end as int, r.len() as int) == foot
}

/// `text` when `on` holds, else nothing.
pub open spec fn text_if(on: bool, text: Seq<char>) -> Seq<char> {
    if on {
        text
    } else {
        Seq::empty()
    }
}

/// Appends the symbols of `digit_run(n)`.
fn push_symbol_run(s: &mut String, n: usize)
    requires
        n <= 81,
    ensures
        final(s)@.len() == old(s)@.len() + n,
        final(s)@.subrange(0, old(s)@.len() as int) == old(s)@,
        spells(final(s)@.subrange(old(s)@.len() as int, final(s)@.len() as int), digit_run(n as nat)),
{
    let ghost start = s@;
    let mut i: usize = 0;
    while i < n
        invariant
            n <= 81,
            i <= n,
            s@.len() == start.len() + i,
            s@.subrange(0, start.len() as int) == start,
            spells(s@.subrange(start.len() as int, s@.len() as int), digit_run(i as nat)),
        decreases n - i,
    {
        let ghost before = s@;
        let c = symbol_for_digit(i as u8);
        push_char(s, c);
        proof {
            assert(s@.subrange(0, start.len() as int) =~= before.subrange(0, start.len() as int));
            let old_tail = before.subrange(start.len() as int, before.len() as int);
            let tail = s@.subrange(start.len() as int, s@.len() as int);
            assert(tail =~= old_tail.push(c));
            assert forall|k: int| 0 <= k < i + 1 implies (tail[k] as u32) == 0x1D306 + digit_run(
                (i + 1) as nat,
            )[k] as u32 by {
                if k < i {
                    assert(tail[k] == old_tail[k]);
                }
            }
        }
        i = i + 1;
    }
}

/// Builds `head`, then the symbols of `digit_run(run)` `reps` times, then
/// `foot`.
fn framed_symbols(head: &str, run: usize, reps: usize, foot: &str) -> (r: String)
    requires
        run <= 81,
    ensures
        framed(r@, head@, repeated(digit_run(run as nat), reps as nat), foot@),
{
    let mut content = String::from_str(head);
    let mut k: usize = 0;
    while k < reps
        invariant
            run <= 81,
            k <= reps,
            content@.len() == head@.len() + repeated(digit_run(run as nat), k as nat).len(),
            content@.subrange(0, head@.len() as int) == head@,
            spells(
                content@.subrange(head@.len() as int, content@.len() as int),
                repeated(digit_run(run as nat), k as nat),
            ),
        decreases reps - k,
    {
        let ghost before = content@;
        push_symbol_run(&mut content, run);
        proof {
            let h = head@.len() as int;
            let d = digit_run(run as nat);
            let prev = repeated(d, k as nat);
            assert(content@.subrange(0, h) =~= before.subrange(0, h));
            let tail = content@.subrange(h, content@.len() as int);
            let old_tail = before.subrange(h, before.len() as int);
            let added = content@.subrange(before.len() as int, content@.len() as int);
            assert(repeated(d, (k + 1) as nat) == prev + d);
            assert forall|i: int| 0 <= i < prev.len() + d.len() implies (tail[i] as u32) == 0x1D306
                + (prev + d)[i] as u32 by {
                if i < prev.len() {
                    assert(tail[i] == old_tail[i]);
                } else {
                    assert(tail[i] == added[i - prev.len()]);
                }
            }
        }
        k = k + 1;
    }
    let ghost body = content@;
    content.append(foot);
    proof {
        let n = body.len() as int;
        assert(content@.subrange(0, head@.len() as int) =~= body.subrange(0, head@.len() as int));
        assert(content@.subrange(head@.len() as int, n) =~= body.subrange(head@.len() as int, n));
        assert(content@.subrange(n, content@.len() as int) =~= foot@);
    }
    content
}

proof fn lemma_repeated_once(d: Seq<u8>)
    ensures
        repeated(d, 1) == d,
{
    assert(repeated(d, 0) == Seq::<u8>::empty());
    assert(Seq::<u8>::empty() + d =~= d);
}

/// Comment lines before the hello-world program.
pub const HELLO_HEAD: &'static str = "// Supreme Mystery Hello World Template\n// Tesla 3-6-9 aligned tetragram program\n\n";

/// Comment lines after the hello-world program.
pub const HELLO_FOOT: &'static str = "\n\n// This template demonstrates basic tetragram structure\n// Each symbol represents a 4-trit instruction nibble\n";

/// Comment lines before the Fibonacci program.
pub const FIBONACCI_HEAD: &'static str = "// Fibonacci sequence calculator\n// Demonstrates arithmetic operations\n\n";

/// Comment lines before the cryptographic program.
pub const CRYPTO_HEAD: &'static str = "// Cryptographic operations template\n// Tesla 3-6-9 aligned for sacred firewall\n\n";

/// Comment lines before the test program.
pub const TEST_HEAD: &'static str = "// Test template for validation\n// Contains all instruction types\n\n";

/// `text` when `on` holds, else the empty string.
fn text_when(on: bool, text: &'static str) -> (r: &'static str)
    ensures
        r@ == text_if(on, text@),
{
    if on {
        text
    } else {
        proof {
            reveal_strlit("");
        }
        ""
    }
}

/// The first nine symbols, with comment lines around them when `debug` is
/// set.
pub fn create_hello_world_template(debug: bool) -> (r: String)
    ensures
        framed(r@, text_if(debug, HELLO_HEAD@), digit_run(9), text_if(debug, HELLO_FOOT@)),
{
    let r = framed_symbols(text_when(debug, HELLO_HEAD), 9, 1, text_when(debug, HELLO_FOOT));
    proof {
        lemma_repeated_once(digit_run(9));
    }
    r
}

/// The first 27 symbols, after comment lines when `debug` is set.
pub fn create_fibonacci_template(debug: bool) -> (r: String)
    ensures
        framed(r@, text_if(debug, FIBONACCI_HEAD@), digit_run(27), Seq::empty()),
{
    proof {
        reveal_strlit("");
        assert(""@ =~= Seq::<char>::empty());
    }
    let r = framed_symbols(text_when(debug, FIBONACCI_HEAD), 27, 1, "");
    proof {
        lemma_repeated_once(digit_run(27));
    }
    r
}

/// The first nine symbols, nine times over (81 symbols), after comment lines
/// when `debug` is set.
pub fn create_crypto_template(debug: bool) -> (r: String)
    ensures
        framed(r@, text_if(debug, CRYPTO_HEAD@), repeated(digit_run(9), 9), Seq::empty()),
{
    proof {
        reveal_strlit("");
        assert(""@ =~= Seq::<char>::empty());
    }
    framed_symbols(text_when(debug, CRYPTO_HEAD), 9, 9, "")
}

/// The first twelve symbols, after comment lines when `debug` is set.
pub fn create_test_template(debug: bool) -> (r: String)
    ensures
        framed(r@, text_if(debug, TEST_HEAD@), digit_run(12), Seq::empty()),
{
    proof {
        reveal_strlit("");
        assert(""@ =~= Seq::<char>::empty());
    }
    let r = framed_symbols(text_when(debug, TEST_HEAD), 12, 1, "");
    proof {
        lemma_repeated_once(digit_run(12));
    }
    r
}

} // verus!
