//! Framing of the JSON reports that both boards post: the request headers,
//! the decimal `content-length`, and the collection of the reply body.

use vstd::prelude::*;

verus! {

/// The character of a decimal digit.
pub open spec fn digit_char(d: nat) -> char {
    ((48 + d) as u8) as char
}

/// The shortest decimal numeral of `n`, most significant digit first.
pub open spec fn decimal(n: nat) -> Seq<char>
    decreases n,
{
    if n < 10 {
        seq![digit_char(n)]
    } else {
        decimal(n / 10).push(digit_char(n % 10))
    }
}

/// The number that a string of decimal digits denotes.
pub open spec fn decimal_value(s: Seq<char>) -> int
    decreases s.len(),
{
    if s.len() == 0 {
        0
    } else {
        10 * decimal_value(s.drop_last()) + (s.last() as int - 48)
    }
}

/// `String::push` appends one character.
#[verifier::external_body]
fn push_char(s: &mut String, c: char)
    ensures
        final(s)@ == old(s)@.push(c),
{
    s.push(c)
}

fn push_decimal(out: &mut String, n: usize)
    ensures
        final(out)@ == old(out)@ + decimal(n as nat),
    decreases n,
{
    let ghost start = out@;
    if n >= 10 {
        push_decimal(out, n / 10);
    }
    let d: u8 = (n % 10) as u8;
    let c: char = (48u8 + d) as char;
    push_char(out, c);
    if n >= 10 {
        assert(start + decimal(n as nat) =~= (start + decimal((n / 10) as nat)).push(c));
    } else {
        assert(start + decimal(n as nat) =~= start.push(c));
    }
}

/// The value of the `content-length` header for a body of `len` bytes: the
/// decimal numeral of `len`.
pub fn content_length(len: usize) -> (s: String)
    ensures
        s@ == decimal(len as nat),
{
    let mut s = String::new();
    push_decimal(&mut s, len);
    s
}

/// The headers of a JSON report of `payload_len` bytes, in the order sent.
pub fn json_post_headers(payload_len: usize) -> (h: Vec<(String, String)>)
    ensures
        h@.len() == 2,
        h@[0].0@ == "content-type"@,
        h@[0].1@ == "application/json"@,
        h@[1].0@ == "content-length"@,
        h@[1].1@ == decimal(payload_len as nat),
{
    let mut h: Vec<(String, String)> = Vec::new();
    h.push((String::from_str("content-type"), String::from_str("application/json")));
    h.push((String::from_str("content-length"), content_length(payload_len)));
    h
}

/// The body of a reply, collected chunk by chunk as it is read.
#[derive(Debug)]
pub struct ResponseBody {
    pub bytes: Vec<u8>,
}

impl ResponseBody {
    /// An empty body.
    pub fn new() -> (b: Self)
        ensures
            b.bytes@ == Seq::<u8>::empty(),
    {
        ResponseBody { bytes: Vec::new() }
    }

    /// Takes in the bytes of one read. An empty read marks the end of the
    /// body: the result says whether reading is done.
    pub fn absorb(&mut self, chunk: &[u8]) -> (done: bool)
        ensures
            done == (chunk@.len() == 0),
            final(self).bytes@ == old(self).bytes@ + chunk@,
    {
        let ghost start = self.bytes@;
        let mut i: usize = 0;
        while i < chunk.len()
            invariant
                i <= chunk@.len(),
                self.bytes@ == start + chunk@.subrange(0, i as int),
            decreases chunk@.len() - i,
        {
            self.bytes.push(chunk[i]);
            i = i + 1;
            assert(start + chunk@.subrange(0, i as int) =~= (start + chunk@.subrange(0, (i - 1) as int)).push(chunk@[i - 1]));
        }
        assert(chunk@.subrange(0, i as int) =~= chunk@);
        chunk.len() == 0
    }
}

proof fn lemma_decimal_digits(n: nat)
    ensures
        decimal(n).len() >= 1,
        decimal_value(decimal(n)) == n,
        forall|i: int| 0 <= i < decimal(n).len() ==> '0' <= #[trigger] decimal(n)[i] <= '9',
        n >= 10 ==> decimal(n)[0] != '0',
    decreases n,
{
    let d = digit_char(n % 10);
    assert(d as int == 48 + n % 10);
    if n >= 10 {
        lemma_decimal_digits(n / 10);
        assert(decimal(n).drop_last() =~= decimal(n / 10));
        assert(decimal(n)[0] == decimal(n / 10)[0]);
        assert(decimal(n).last() == d);
        assert(10 * (n / 10) + n % 10 == n);
        assert(decimal_value(decimal(n)) == 10 * decimal_value(decimal(n / 10)) + (d as int - 48));
    } else {
        assert(decimal(n).drop_last() =~= Seq::<char>::empty());
        assert(decimal_value(Seq::<char>::empty()) == 0);
        assert(decimal(n).last() == d);
    }
}

/// The `content-length` header states the body's length exactly: its value
/// is a numeral of decimal digits, without a leading zero, that denotes the
/// length.
pub proof fn lemma_content_length_denotes_length(len: nat)
    ensures
        decimal(len).len() >= 1,
        decimal_value(decimal(len)) == len,
        forall|i: int| 0 <= i < decimal(len).len() ==> '0' <= #[trigger] decimal(len)[i] <= '9',
        decimal(len).len() > 1 ==> decimal(len)[0] != '0',
{
    lemma_decimal_digits(len);
    if len < 10 {
        assert(decimal(len).len() == 1);
    }
}

} // verus!
