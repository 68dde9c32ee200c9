//! Random passwords of one length, made of printable ASCII characters.

use crate::batch::{line_bytes, uniform, validated, ValidationError};
use crate::partition::{
    lemma_slice_ends, lemma_slice_in_range, lemma_slice_start_monotone, partition, partition_of,
    slice_start,
};
use crate::render::lines_view;
use rand::distr::{Distribution, Uniform};
use rand::rngs::ThreadRng;
use vstd::prelude::*;
use vstd::string::StringExecFns;
use vstd::utf8::encode_utf8;

verus! {

/// The thread-local random number generator of the rand crate.
#[verifier::external_type_specification]
#[verifier::external_body]
pub struct ExThreadRng(ThreadRng);

/// `String::push` appends one character.
pub assume_specification[ String::push ](s: &mut String, c: char)
    ensures
        final(s)@ == old(s)@.push(c),
;

/// Calls `rand::rng`: a handle to this thread's generator.
#[verifier::external_body]
fn thread_rng() -> ThreadRng {
    rand::rng()
}

/// Calls `Uniform::new_inclusive` and `sample` of the rand crate. Trusted:
/// whatever is drawn lies between the two bounds, both included.
#[verifier::external_body]
fn sample_between(rng: &mut ThreadRng, low: char, high: char) -> (c: char)
    requires
        low <= high,
    ensures
        low <= c <= high,
{
    Uniform::new_inclusive(low, high).unwrap().sample(rng)
}

/// The first printable ASCII character, the space.
pub const FIRST_PRINTABLE: char = ' ';

/// The last printable ASCII character, the tilde.
pub const LAST_PRINTABLE: char = '~';

/// Whether the character is printable ASCII: code 32 to 126.
pub open spec fn printable(c: char) -> bool {
    ' ' <= c <= '~'
}

/// Whether the text is a password of `chars` printable characters.
pub open spec fn is_password(text: Seq<char>, chars: nat) -> bool {
    &&& text.len() == chars
    &&& forall|i: int| 0 <= i < text.len() ==> printable(#[trigger] text[i])
}

/// Whether every text is a password of `chars` printable characters.
pub open spec fn all_passwords(texts: Seq<Seq<char>>, chars: nat) -> bool {
    forall|i: int| 0 <= i < texts.len() ==> is_password(#[trigger] texts[i], chars)
}

/// A password of `chars` printable characters takes `chars` bytes.
pub proof fn lemma_password_bytes(text: Seq<char>, chars: nat)
    requires
        is_password(text, chars),
    ensures
        encode_utf8(text).len() == chars,
{
    assert(vstd::utf8::is_ascii_chars(text)) by {
        assert forall|i: int| 0 <= i < text.len() implies '\0' <= #[trigger] text[i]
            <= '\u{7f}' by {
            assert(printable(text[i]));
        }
    }
    vstd::utf8::is_ascii_chars_encode_utf8(text);
}

/// Generated passwords are a batch: what was made with one length passes
/// validation with that length.
pub proof fn lemma_generated_is_batch(lines: Seq<String>, chars: nat)
    requires
        lines.len() > 0,
        all_passwords(lines_view(lines), chars),
    ensures
        validated(line_bytes(lines)) == Ok::<nat, ValidationError>(chars),
{
    let passwords = line_bytes(lines);
    assert forall|i: int| 0 <= i < passwords.len() implies (#[trigger] passwords[i]).len()
        == chars by {
        assert(is_password(lines_view(lines)[i], chars));
        lemma_password_bytes(lines[i]@, chars);
    }
    assert(uniform(passwords));
}

/// Draws one password of `chars` printable characters.
fn random_password(rng: &mut ThreadRng, chars: u8) -> (text: String)
    ensures
        is_password(text@, chars as nat),
{
    let mut text = String::new();
    let mut i: u8 = 0;
    while i < chars
        invariant
            i <= chars,
            is_password(text@, i as nat),
        decreases chars - i,
    {
        let c = sample_between(rng, FIRST_PRINTABLE, LAST_PRINTABLE);
        text.push(c);
        i += 1;
    }
    text
}

/// One worker's job: `count` passwords of `chars` printable characters each,
/// drawn from the worker's own generator.
pub fn generate_passwords(chars: u8, count: usize) -> (passwords: Vec<String>)
    ensures
        passwords@.len() == count,
        all_passwords(lines_view(passwords@), chars as nat),
{
    let mut rng = thread_rng();
    let mut passwords: Vec<String> = Vec::new();
    let mut i: usize = 0;
    while i < count
        invariant
            i <= count,
            passwords@.len() == i,
            all_passwords(lines_view(passwords@), chars as nat),
        decreases count - i,
    {
        let ghost before = lines_view(passwords@);
        let password = random_password(&mut rng, chars);
        passwords.push(password);
        proof {
            let after = lines_view(passwords@);
            assert forall|j: int| 0 <= j < after.len() implies is_password(
                #[trigger] after[j],
                chars as nat,
            ) by {
                if j < before.len() {
                    assert(after[j] == before[j]);
                }
            }
        }
        i += 1;
    }
    passwords
}

/// Makes `num` passwords of `chars` printable characters each, shared out among
/// `threads` workers as the partition says, one worker after the other.
pub fn gen_passwords(chars: u8, threads: usize, num: usize) -> (passwords: Vec<String>)
    requires
        threads >= 1,
    ensures
        passwords@.len() == num,
        all_passwords(lines_view(passwords@), chars as nat),
{
    let slices = partition(num, threads);
    let mut passwords: Vec<String> = Vec::new();
    let mut w: usize = 0;
    proof {
        lemma_slice_ends(num as nat, threads as nat);
    }
    while w < threads
        invariant
            w <= threads,
            threads >= 1,
            slices@ == partition_of(num as nat, threads as nat),
            passwords@.len() == slice_start(num as nat, threads as nat, w as nat),
            all_passwords(lines_view(passwords@), chars as nat),
        decreases threads - w,
    {
        proof {
            lemma_slice_in_range(num as nat, threads as nat, w as nat);
            lemma_slice_in_range(num as nat, threads as nat, (w + 1) as nat);
            lemma_slice_start_monotone(num as nat, threads as nat, w as nat, (w + 1) as nat);
        }
        let slice = slices[w];
        let ghost before = lines_view(passwords@);
        let mut part = generate_passwords(chars, slice.len());
        let ghost added = lines_view(part@);
        passwords.append(&mut part);
        proof {
            let after = lines_view(passwords@);
            assert(after =~= before + added);
            assert forall|j: int| 0 <= j < after.len() implies is_password(
                #[trigger] after[j],
                chars as nat,
            ) by {
                if j < before.len() {
                    assert(after[j] == before[j]);
                } else {
                    assert(after[j] == added[j - before.len()]);
                }
            }
        }
        w += 1;
    }
    proof {
        lemma_slice_ends(num as nat, threads as nat);
    }
    passwords
}

/// The texts with a line feed between each two, and none after the last.
pub open spec fn joined(lines: Seq<Seq<char>>) -> Seq<char>
    decreases lines.len(),
{
    if lines.len() == 0 {
        Seq::empty()
    } else if lines.len() == 1 {
        lines[0]
    } else {
        joined(lines.drop_last()) + seq!['\n'] + lines.last()
    }
}

/// Joins the passwords into the text of a password file: one per line, with no
/// line feed after the last.
pub fn join_lines(lines: &Vec<String>) -> (text: String)
    ensures
        text@ == joined(lines_view(lines@)),
{
    let mut text = String::new();
    let mut i: usize = 0;
    let ghost all = lines_view(lines@);
    assert(all.subrange(0, 0) =~= Seq::<Seq<char>>::empty());
    while i < lines.len()
        invariant
            i <= lines.len(),
            all == lines_view(lines@),
            text@ == joined(all.subrange(0, i as int)),
        decreases lines.len() - i,
    {
        proof {
            let next = all.subrange(0, i + 1);
            assert(next.drop_last() =~= all.subrange(0, i as int));
            assert(next.last() == lines@[i as int]@);
            if i == 0 {
                assert(next[0] == lines@[0]@);
                assert(text@ + lines@[0]@ =~= lines@[0]@);
            }
        }
        if i > 0 {
            text.push('\n');
        }
        text.append(lines[i].as_str());
        i += 1;
    }
    assert(all.subrange(0, lines.len() as int) =~= all);
    text
}

} // verus!
