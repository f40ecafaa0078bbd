//! The token that goes with a request to enter a high score.
//!
//! The token is a digest of the score, the name and a number that stands for
//! the time of the request, written as 64 hexadecimal digits.

use crate::net::HighscoreReq;
use crate::text::{
    decimal_text, hex_char, hex_digit, octal_text, push_decimal_text, push_octal_text,
};
use vstd::prelude::*;
use vstd::string::StringExecFns;

verus! {

/// The eight words of the digest's state.
pub type Words = Seq<u32>;

/// The state with which a digest starts.
pub open spec fn first_words() -> Words {
    seq![
        0x5fb0_39fbu32,
        0x65b5_67d2u32,
        0x996f_9cf8u32,
        0x4d82_daacu32,
        0x68a8_3c70u32,
        0xd111_cdbcu32,
        0xd288_f9e3u32,
        0xd2f4_60e7u32,
    ]
}

/// The first step of a round: each word is mixed with the bits that it has
/// and the next word has not.
pub open spec fn thinned(s: Words) -> Words {
    Seq::new(8, |i: int| s[i] ^ ((s[i] & !s[(i + 1) % 8]) >> 2))
}

/// The second step of a round: the words change places.
pub open spec fn shuffled(s: Words) -> Words {
    seq![s[6], s[2], s[3], s[0], s[1], s[7], s[5], s[4]]
}

/// One word of the third step of a round.
pub open spec fn stirred_word(s: Words, i: int) -> u32 {
    let mixed = s[i] ^ ((!s[(i + 1) % 8] & s[(i + 6) % 8]) >> 3);
    mixed ^ (mixed << 5)
}

/// The third step of a round: each word is mixed with two others and with
/// itself.
pub open spec fn stirred(s: Words) -> Words {
    Seq::new(8, |i: int| stirred_word(s, i))
}

/// The fourth step of a round: each word is mixed with the halves of two
/// others.
pub open spec fn crossed(s: Words) -> Words {
    Seq::new(8, |i: int| s[i] ^ ((s[(17 * i + 20) % 8] << 16) | (s[(7 - i) % 8] >> 16)))
}

/// The last step of a round: two words take up three others each.
pub open spec fn folded(s: Words) -> Words {
    s.update(0, s[0] ^ (s[1] ^ s[2] ^ s[7])).update(4, s[4] ^ (s[5] ^ s[6] ^ s[3]))
}

/// One round of the digest.
#[verifier::opaque]
pub open spec fn spec_permute(s: Words) -> Words {
    folded(crossed(stirred(shuffled(thinned(s)))))
}

/// The word that a block of at most eight bytes makes: the bytes one after
/// the other, each moving those before it up by eight bits, so that of a
/// block of more than four bytes the last four count.
pub open spec fn packed(block: Seq<u8>) -> u32
    decreases block.len(),
{
    if block.len() == 0 {
        0
    } else {
        (packed(block.drop_last()) << 8) | (block.last() as u32)
    }
}

/// The state after the bytes have been taken in, in blocks of eight, the last
/// of which may be shorter. The block with the number `count` is mixed into
/// the word `count % 3`, and a round follows each block.
pub open spec fn absorbed(s: Words, bytes: Seq<u8>, count: nat) -> Words
    decreases bytes.len(),
{
    if bytes.len() == 0 {
        s
    } else {
        let len = if bytes.len() < 8 {
            bytes.len() as int
        } else {
            8
        };
        let into = (count % 3) as int;
        absorbed(
            spec_permute(s.update(into, s[into] ^ packed(bytes.take(len)))),
            bytes.skip(len),
            count + 1,
        )
    }
}

/// The state after `rounds` rounds.
pub open spec fn rounds_on(s: Words, rounds: nat) -> Words
    decreases rounds,
{
    if rounds == 0 {
        s
    } else {
        spec_permute(rounds_on(s, (rounds - 1) as nat))
    }
}

/// The eight words of the digest of `bytes`: after the bytes are taken in
/// and one more round, the word with the number `i` is read from the place
/// `(i * 13) % 5` of the state, and a round follows each word.
pub open spec fn digest(bytes: Seq<u8>) -> Words {
    let taken = spec_permute(absorbed(first_words(), bytes, 0));
    Seq::new(8, |i: int| rounds_on(taken, i as nat)[(i * 13) % 5])
}

/// The digit with the number `k`, from the left, of a word written as eight
/// hexadecimal digits.
pub open spec fn hex_at(word: u32, k: int) -> char {
    hex_char((word >> ((4 * (7 - k)) as u32)) & 0xf)
}

/// A word written as eight hexadecimal digits in lower case.
pub open spec fn hex_word(word: u32) -> Seq<char> {
    Seq::new(8, |k: int| hex_at(word, k))
}

/// The words written one after the other, each as eight hexadecimal digits
/// in lower case.
pub open spec fn hex(words: Words) -> Seq<char>
    decreases words.len(),
{
    if words.len() == 0 {
        Seq::empty()
    } else {
        hex(words.drop_last()) + hex_word(words.last())
    }
}

/// The octal digits of `n`, as the bytes of their characters, without
/// leading zeros.
pub open spec fn octal(n: nat) -> Seq<u8>
    decreases n,
{
    if n < 8 {
        seq![(48 + n) as u8]
    } else {
        octal(n / 8).push((48 + n % 8) as u8)
    }
}

/// The decimal digits of `n`, as the bytes of their characters, without
/// leading zeros.
pub open spec fn decimal(n: nat) -> Seq<u8>
    decreases n,
{
    if n < 10 {
        seq![(48 + n) as u8]
    } else {
        decimal(n / 10).push((48 + n % 10) as u8)
    }
}

/// The bytes of the text between the score and the name.
pub open spec fn before_name() -> Seq<u8> {
    vstd::utf8::encode_utf8(" fffffffff "@)
}

/// The bytes of the text between the name and the time.
pub open spec fn after_name() -> Seq<u8> {
    vstd::utf8::encode_utf8(" esiovtb3w5iothbiouthes0u1234567890"@)
}

/// The bytes of which the token is the digest: the score in octal digits,
/// the name, and the time in decimal digits, with the two fixed texts
/// between them.
pub open spec fn token_input(score: u32, name: Seq<u8>, tens: u32) -> Seq<u8> {
    octal(score as nat) + before_name() + name + after_name() + decimal(tens as nat)
}

/// One round of the digest.
fn permute(state: &mut [u32; 8])
    ensures
        final(state)@ == spec_permute(old(state)@),
{
    let ghost s0 = state@;
    let mut copy: [u32; 8] = [0;8];
    let mut i: usize = 0;
    while i < 8
        invariant
            i <= 8,
            state@ == s0,
            forall|j: int| 0 <= j < i ==> #[trigger] copy@[j] == s0[j] & !s0[(j + 1) % 8],
        decreases 8 - i,
    {
        copy[i] = state[i] & !state[(i + 1) % 8];
        i += 1;
    }
    let mut i: usize = 0;
    while i < 8
        invariant
            i <= 8,
            forall|j: int| 0 <= j < 8 ==> #[trigger] copy@[j] == s0[j] & !s0[(j + 1) % 8],
            forall|j: int| 0 <= j < i ==> #[trigger] state@[j] == thinned(s0)[j],
            forall|j: int| i <= j < 8 ==> #[trigger] state@[j] == s0[j],
        decreases 8 - i,
    {
        state[i] = state[i] ^ (copy[i] >> 2);
        i += 1;
    }
    assert(state@ =~= thinned(s0));
    let ghost s1 = state@;

    let temp = state[2];
    state[2] = state[3];
    state[3] = state[0];
    state[0] = state[6];
    state[6] = state[5];
    state[5] = state[7];
    state[7] = state[4];
    state[4] = state[1];
    state[1] = temp;
    assert(state@ =~= shuffled(s1));
    let ghost s2 = state@;

    let mut i: usize = 0;
    while i < 8
        invariant
            i <= 8,
            state@ == s2,
            forall|j: int| 0 <= j < i ==> #[trigger] copy@[j] == stirred_word(s2, j),
        decreases 8 - i,
    {
        copy[i] = state[i] ^ ((!state[(i + 1) % 8] & state[(i + 6) % 8]) >> 3);
        copy[i] = copy[i] ^ (copy[i] << 5);
        i += 1;
    }
    assert(copy@ =~= stirred(s2));
    let ghost s3 = copy@;

    let mut i: usize = 0;
    while i < 8
        invariant
            i <= 8,
            copy@ == s3,
            forall|j: int| 0 <= j < i ==> #[trigger] state@[j] == crossed(s3)[j],
        decreases 8 - i,
    {
        state[i] = copy[i] ^ ((copy[(17 * i + 20) % 8] << 16) | (copy[(7 - i) % 8] >> 16));
        i += 1;
    }
    assert(state@ =~= crossed(s3));
    let ghost s4 = state@;
    state[0] = state[0] ^ (state[1] ^ state[2] ^ state[7]);
    state[4] = state[4] ^ (state[5] ^ state[6] ^ state[3]);
    assert(state@ =~= folded(s4));
    reveal(spec_permute);
}

/// Writes a word at the end of a text, as eight hexadecimal digits.
fn push_hex(output: &mut String, word: u32)
    ensures
        final(output)@ == old(output)@ + hex_word(word),
{
    let mut k: u32 = 0;
    while k < 8
        invariant
            k <= 8,
            output@ == old(output)@ + Seq::new(k as nat, |j: int| hex_at(word, j)),
        decreases 8 - k,
    {
        let shift = 4 * (7 - k);
        let nibble = (word >> shift) & 0xf;
        assert(nibble < 16) by (bit_vector)
            requires
                nibble == (word >> shift) & 0xf,
        ;
        output.append(hex_digit(nibble));
        assert(output@ =~= old(output)@ + Seq::new((k + 1) as nat, |j: int| hex_at(word, j)));
        k += 1;
    }
    assert(output@ =~= old(output)@ + hex_word(word));
}

/// The digest of `input`, written as 64 hexadecimal digits.
fn hash(input: &[u8]) -> (output: String)
    ensures
        output@ == hex(digest(input@)),
{
    let mut state: [u32; 8] = [
        0x5fb0_39fb,
        0x65b5_67d2,
        0x996f_9cf8,
        0x4d82_daac,
        0x68a8_3c70,
        0xd111_cdbc,
        0xd288_f9e3,
        0xd2f4_60e7,
    ];
    assert(state@ =~= first_words());
    let mut at: usize = 0;
    let mut count: usize = 0;
    proof {
        assert(input@.skip(0) =~= input@);
    }
    while at < input.len()
        invariant
            at <= input@.len(),
            count <= at,
            absorbed(first_words(), input@, 0) == absorbed(state@, input@.skip(at as int), count as nat),
        decreases input@.len() - at,
    {
        let end = if input.len() - at < 8 {
            input.len()
        } else {
            at + 8
        };
        let ghost block = input@.skip(at as int).take(end - at);
        let mut res: u32 = 0;
        let mut k: usize = at;
        proof {
            assert(block.take(0) =~= Seq::empty());
        }
        while k < end
            invariant
                at <= k <= end <= input@.len(),
                end - at <= 8,
                block == input@.skip(at as int).take(end - at),
                res == packed(block.take(k - at)),
            decreases end - k,
        {
            proof {
                assert(block.take(k - at + 1).drop_last() =~= block.take(k - at));
                assert(block.take(k - at + 1).last() == input@[k as int]);
            }
            res = (res << 8) | (input[k] as u32);
            k += 1;
        }
        proof {
            assert(block.take(end - at) =~= block);
            assert(input@.skip(at as int).skip(end - at) =~= input@.skip(end as int));
        }
        let into = count % 3;
        state[into] = state[into] ^ res;
        count += 1;
        permute(&mut state);
        at = end;
    }
    proof {
        assert(input@.skip(input@.len() as int) =~= Seq::empty());
    }
    permute(&mut state);
    let ghost taken = state@;
    let mut output = String::new();
    let ghost mut words: Words = Seq::empty();
    let mut i: usize = 0;
    proof {
        assert(output@ =~= hex(words));
    }
    while i < 8
        invariant
            i <= 8,
            taken == spec_permute(absorbed(first_words(), input@, 0)),
            state@ == rounds_on(taken, i as nat),
            words.len() == i,
            forall|j: int| 0 <= j < i ==> #[trigger] words[j] == digest(input@)[j],
            output@ == hex(words),
        decreases 8 - i,
    {
        let word = state[(i * 13) % 5];
        push_hex(&mut output, word);
        proof {
            assert(words.push(word).drop_last() =~= words);
            words = words.push(word);
        }
        permute(&mut state);
        i += 1;
    }
    proof {
        assert(words =~= digest(input@));
    }
    output
}

/// Writes the octal digits of `n` at the end of `out`.
fn push_octal(out: &mut Vec<u8>, n: u32)
    ensures
        final(out)@ == old(out)@ + octal(n as nat),
    decreases n,
{
    if n >= 8 {
        push_octal(out, n / 8);
    }
    out.push(48 + (n % 8) as u8);
    proof {
        assert(out@ =~= old(out)@ + octal(n as nat));
    }
}

/// Writes the decimal digits of `n` at the end of `out`.
fn push_decimal(out: &mut Vec<u8>, n: u32)
    ensures
        final(out)@ == old(out)@ + decimal(n as nat),
    decreases n,
{
    if n >= 10 {
        push_decimal(out, n / 10);
    }
    out.push(48 + (n % 10) as u8);
    proof {
        assert(out@ =~= old(out)@ + decimal(n as nat));
    }
}

/// Writes `bytes` at the end of `out`.
fn push_bytes(out: &mut Vec<u8>, bytes: &[u8])
    ensures
        final(out)@ == old(out)@ + bytes@,
{
    let mut i: usize = 0;
    while i < bytes.len()
        invariant
            i <= bytes@.len(),
            out@ == old(out)@ + bytes@.take(i as int),
        decreases bytes@.len() - i,
    {
        out.push(bytes[i]);
        proof {
            assert(out@ =~= old(out)@ + bytes@.take(i + 1));
        }
        i += 1;
    }
    proof {
        assert(bytes@.take(bytes@.len() as int) =~= bytes@);
    }
}

/// The token for a request to enter a score at the time `tens`, counted in
/// tens of seconds.
pub fn gen_auth_token(req: &HighscoreReq, tens: u32) -> (token: String)
    ensures
        token@ == hex(digest(token_input(req.score, vstd::utf8::encode_utf8(req.name@), tens))),
{
    let mut input: Vec<u8> = Vec::new();
    push_octal(&mut input, req.score);
    push_bytes(&mut input, " fffffffff ".as_bytes());
    push_bytes(&mut input, req.name.as_str().as_bytes());
    push_bytes(&mut input, " esiovtb3w5iothbiouthes0u1234567890".as_bytes());
    push_decimal(&mut input, tens);
    proof {
        assert(input@ =~= token_input(req.score, vstd::utf8::encode_utf8(req.name@), tens));
    }
    hash(input.as_slice())
}

/// The text that a player has signed to ask for a score to be entered: the
/// score in octal digits and the name, with the two fixed texts of a token's
/// input, and without the time.
pub fn request_text(score: u32, name: &str) -> (text: String)
    ensures
        text@ == octal_text(score as nat) + " fffffffff "@ + name@ + " esiovtb3w5iothbiouthes0u"@,
{
    let mut text = String::new();
    push_octal_text(&mut text, score);
    text.append(" fffffffff ");
    text.append(name);
    text.append(" esiovtb3w5iothbiouthes0u");
    assert(text@ =~= octal_text(score as nat) + " fffffffff "@ + name@
        + " esiovtb3w5iothbiouthes0u"@);
    text
}

/// The body of the request by which a player asks for a score to be entered:
/// the score, the token and the name, written as they are between the
/// braces and quotes of an object.
pub fn request_body(score: u32, token: &str, name: &str) -> (body: String)
    ensures
        body@ == "{\"score\": "@ + decimal_text(score as nat) + ", \"auth\": \""@ + token@
            + "\", \"name\": \""@ + name@ + "\"}"@,
{
    let mut body = String::new();
    body.append("{\"score\": ");
    push_decimal_text(&mut body, score);
    body.append(", \"auth\": \"");
    body.append(token);
    body.append("\", \"name\": \"");
    body.append(name);
    body.append("\"}");
    assert(body@ =~= "{\"score\": "@ + decimal_text(score as nat) + ", \"auth\": \""@ + token@
        + "\", \"name\": \""@ + name@ + "\"}"@);
    body
}

} // verus!
