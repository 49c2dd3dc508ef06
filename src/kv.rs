//! `key=value` arguments of a command-line HTTP client: the text before the
//! first `=` is the key, the text after it up to the next `=` (or the end)
//! is the value.
use vstd::prelude::*;
use vstd::string::StringSliceAdditionalSpecFns;
use vstd::string::StringExecFns;
use vstd::utf8::*;

verus! {

pub const EQ_BYTE: u8 = 0x3D;

#[derive(Clone, Debug, PartialEq, Eq)]
pub struct KvPair {
    pub key: String,
    pub value: String,
}

/// The argument holds no `=`.
#[derive(Clone, Debug, PartialEq, Eq)]
pub struct KvError {
    /// The argument that was refused.
    pub input: String,
}

pub const PARSE_FAILURE: &'static str = "Failed to parse ";

impl KvError {
    /// The message for the refused argument: `Failed to parse <input>`.
    pub fn to_string(&self) -> (r: String)
        ensures
            r@ == PARSE_FAILURE@ + self.input@,
    {
        PARSE_FAILURE.to_owned().concat(self.input.as_str())
    }
}

pub open spec fn has_eq(b: Seq<u8>) -> bool {
    exists|k: int| 0 <= k < b.len() && b[k] == EQ_BYTE
}

/// The bytes before the first `=`, or all of them.
pub open spec fn before_eq(b: Seq<u8>) -> Seq<u8>
    decreases b.len(),
{
    if b.len() == 0 || b[0] == EQ_BYTE {
        Seq::empty()
    } else {
        seq![b[0]] + before_eq(b.drop_first())
    }
}

/// Key and value bytes of an argument that holds a `=`.
pub open spec fn kv_key(b: Seq<u8>) -> Seq<u8> {
    before_eq(b)
}

pub open spec fn kv_value(b: Seq<u8>) -> Seq<u8> {
    before_eq(b.skip(before_eq(b).len() as int + 1))
}

proof fn lemma_before_eq(b: Seq<u8>, i: int)
    requires
        0 <= i <= b.len(),
        forall|k: int| 0 <= k < i ==> b[k] != EQ_BYTE,
        i == b.len() || b[i] == EQ_BYTE,
    ensures
        before_eq(b) == b.subrange(0, i),
    decreases i,
{
    if i == 0 {
        assert(b.subrange(0, 0) =~= Seq::<u8>::empty());
    } else {
        lemma_before_eq(b.drop_first(), i - 1);
        assert(seq![b[0]] + b.drop_first().subrange(0, i - 1) =~= b.subrange(0, i));
    }
}

/// Index of the first `=` in `b` at or after `from`, or `b.len()`.
fn find_eq(b: &[u8], from: usize) -> (r: usize)
    requires
        from <= b@.len(),
    ensures
        from <= r <= b@.len(),
        forall|k: int| from <= k < r ==> b@[k] != EQ_BYTE,
        r == b@.len() || b@[r as int] == EQ_BYTE,
{
    let mut i = from;
    while i < b.len()
        invariant
            from <= i <= b@.len(),
            forall|k: int| from <= k < i ==> b@[k] != EQ_BYTE,
        decreases b.len() - i,
    {
        if b[i] == EQ_BYTE {
            return i;
        }
        i = i + 1;
    }
    i
}

/// Splits `key=value`; an argument without `=` is refused.
pub fn parse_kv_pair(s: &str) -> (r: Result<KvPair, KvError>)
    ensures
        !has_eq(s.spec_bytes()) ==> (r matches Err(e) && e.input@ == s@),
        has_eq(s.spec_bytes()) ==> (r matches Ok(kv) && encode_utf8(kv.key@) == kv_key(
            s.spec_bytes(),
        ) && encode_utf8(kv.value@) == kv_value(s.spec_bytes())),
{
    let bytes = s.as_bytes();
    let ghost b = s.spec_bytes();
    let i = find_eq(bytes, 0);
    if i == bytes.len() {
        return Err(KvError { input: s.to_owned() });
    }
    proof {
        lemma_before_eq(b, i as int);
        encode_utf8_valid_utf8(s@);
        is_char_boundary_iff_not_is_continuation_byte(b, i as int);
    }
    let (key, rest) = s.split_at(i);
    let ghost rb = rest.spec_bytes();
    proof {
        valid_utf8_split(b, i as int);
        assert(rb[0] == EQ_BYTE);
        reveal_with_fuel(is_char_boundary, 2);
        assert(is_char_boundary(rb, 1));
    }
    let (_, tail) = rest.split_at(1);
    let ghost tb = tail.spec_bytes();
    assert(tb =~= b.skip(i + 1));
    let tail_bytes = tail.as_bytes();
    let j = find_eq(tail_bytes, 0);
    proof {
        lemma_before_eq(tb, j as int);
        valid_utf8_split(rb, 1);
        if j < tb.len() {
            is_char_boundary_iff_not_is_continuation_byte(tb, j as int);
        } else {
            is_char_boundary_start_end_of_seq(tb);
        }
    }
    let (value, _) = tail.split_at(j);
    Ok(KvPair { key: key.to_owned(), value: value.to_owned() })
}

} // verus!
