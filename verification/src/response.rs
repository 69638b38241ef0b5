//! Typed committed-transaction results, and the event bookkeeping that
//! extracts code ids and addresses from them.

use vstd::prelude::*;

verus! {

/// What the chain reports for one transaction: a response code — zero
/// means success — the raw response data, the chain's log line, and the
/// gas accounting.
#[derive(Clone, Debug, PartialEq)]
pub struct ChainResponse {
    pub code: u32,
    pub data: Option<Vec<u8>>,
    pub log: String,
    pub gas_wanted: u64,
    pub gas_used: u64,
}

impl ChainResponse {
    /// Whether the transaction was accepted: a non-zero code aborts the
    /// whole stage for its batch.
    pub fn success(&self) -> (r: bool)
        ensures
            r == (self.code == 0),
    {
        self.code == 0
    }
}

/// A committed store-code result: the assigned code id.
#[derive(Clone, Debug, PartialEq)]
pub struct StoreCodeResponse {
    pub code_id: u64,
    pub res: ChainResponse,
    pub tx_hash: String,
    pub height: u64,
}

/// A committed instantiate result: the new contract address.
#[derive(Clone, Debug, PartialEq)]
pub struct InstantiateResponse {
    pub address: String,
    pub res: ChainResponse,
    pub tx_hash: String,
    pub height: u64,
}

/// A committed execute result.
#[derive(Clone, Debug, PartialEq)]
pub struct ExecResponse {
    pub res: ChainResponse,
    pub tx_hash: String,
    pub height: u64,
}

/// A smart-query result.
#[derive(Clone, Debug, PartialEq)]
pub struct QueryResponse {
    pub res: ChainResponse,
}

/// A committed migrate result.
#[derive(Clone, Debug, PartialEq)]
pub struct MigrateResponse {
    pub res: ChainResponse,
    pub tx_hash: String,
    pub height: u64,
}

/// Ghost mirror of [`Attribute`].
#[verifier::ext_equal]
pub struct AttributeV {
    pub key: Seq<char>,
    pub value: Seq<char>,
}

/// One key-value attribute of a transaction event.
#[derive(Clone, Debug, PartialEq)]
pub struct Attribute {
    pub key: String,
    pub value: String,
}

impl DeepView for Attribute {
    type V = AttributeV;

    open spec fn deep_view(&self) -> AttributeV {
        AttributeV { key: self.key@, value: self.value@ }
    }
}

/// Ghost mirror of [`Event`].
#[verifier::ext_equal]
pub struct EventV {
    pub kind: Seq<char>,
    pub attributes: Seq<AttributeV>,
}

/// One event a committed transaction emitted.
#[derive(Clone, Debug, PartialEq)]
pub struct Event {
    pub kind: String,
    pub attributes: Vec<Attribute>,
}

impl DeepView for Event {
    type V = EventV;

    open spec fn deep_view(&self) -> EventV {
        EventV { kind: self.kind@, attributes: self.attributes.deep_view() }
    }
}

/// First index at or after `i` of an event of the given kind.
pub open spec fn find_event_from(s: Seq<EventV>, kind: Seq<char>, i: int) -> Option<int>
    decreases s.len() - i,
    when 0 <= i <= s.len()
{
    if i >= s.len() {
        Option::None
    } else if s[i].kind == kind {
        Option::Some(i)
    } else {
        find_event_from(s, kind, i + 1)
    }
}

/// First index at or after `i` of an attribute with the given key.
pub open spec fn find_attribute_from(s: Seq<AttributeV>, key: Seq<char>, i: int) -> Option<int>
    decreases s.len() - i,
    when 0 <= i <= s.len()
{
    if i >= s.len() {
        Option::None
    } else if s[i].key == key {
        Option::Some(i)
    } else {
        find_attribute_from(s, key, i + 1)
    }
}

/// The first event of kind `key_name`, if the transaction emitted one.
#[verifier::loop_isolation(false)]
pub fn find_event<'a>(events: &'a Vec<Event>, key_name: &String) -> (r: Option<&'a Event>)
    ensures
        match r {
            Option::Some(e) => find_event_from(events.deep_view(), key_name@, 0) matches Option
                ::Some(j) && e.deep_view() == events.deep_view()[j],
            Option::None => find_event_from(events.deep_view(), key_name@, 0) is None,
        },
{
    let ghost ev: Seq<EventV> = events.deep_view();
    let mut i: usize = 0;
    while i < events.len()
        invariant
            0 <= i <= ev.len(),
            find_event_from(ev, key_name@, 0) == find_event_from(ev, key_name@, i as int),
        decreases ev.len() - i,
    {
        if events[i].kind == *key_name {
            return Option::Some(&events[i]);
        }
        i += 1;
    }
    Option::None
}

/// The value of the first attribute keyed `key`, if the event has one.
#[verifier::loop_isolation(false)]
pub fn find_attribute<'a>(event: &'a Event, key: &String) -> (r: Option<&'a String>)
    ensures
        match r {
            Option::Some(v) => find_attribute_from(event.deep_view().attributes, key@, 0) matches
                Option::Some(j) && v@ == event.deep_view().attributes[j].value,
            Option::None => find_attribute_from(event.deep_view().attributes, key@, 0) is None,
        },
{
    let ghost av: Seq<AttributeV> = event.deep_view().attributes;
    let mut i: usize = 0;
    while i < event.attributes.len()
        invariant
            0 <= i <= av.len(),
            find_attribute_from(av, key@, 0) == find_attribute_from(av, key@, i as int),
        decreases av.len() - i,
    {
        if event.attributes[i].key == *key {
            return Option::Some(&event.attributes[i].value);
        }
        i += 1;
    }
    Option::None
}

/// Whether `c` is a decimal digit.
pub open spec fn is_digit(c: char) -> bool {
    '0' <= c && c <= '9'
}

/// The number a string of decimal digits denotes.
pub open spec fn digits_val(s: Seq<char>) -> int
    decreases s.len(),
{
    if s.len() == 0 {
        0
    } else {
        digits_val(s.drop_last()) * 10 + (s.last() as int - '0' as int)
    }
}

/// Appending digits never shrinks the denoted value.
proof fn lemma_digits_val_prefix(s: Seq<char>, i: int)
    requires
        0 <= i <= s.len(),
        forall|k: int| 0 <= k < s.len() ==> is_digit(#[trigger] s[k]),
    ensures
        digits_val(s.subrange(0, i)) <= digits_val(s),
    decreases s.len() - i,
{
    if i < s.len() {
        assert(s.subrange(0, i + 1).drop_last() =~= s.subrange(0, i));
        assert(s.subrange(0, i + 1).last() == s[i]);
        assert(digits_val(s.subrange(0, i)) >= 0) by {
            lemma_digits_val_nonneg(s.subrange(0, i));
        }
        assert(digits_val(s.subrange(0, i + 1)) == digits_val(s.subrange(0, i)) * 10 + (
        s[i] as int - '0' as int));
        lemma_digits_val_prefix(s, i + 1);
    } else {
        assert(s.subrange(0, i) =~= s);
    }
}

/// A digit string denotes a non-negative number.
proof fn lemma_digits_val_nonneg(s: Seq<char>)
    requires
        forall|k: int| 0 <= k < s.len() ==> is_digit(#[trigger] s[k]),
    ensures
        digits_val(s) >= 0,
    decreases s.len(),
{
    if s.len() > 0 {
        assert(forall|k: int|
            0 <= k < s.len() - 1 ==> is_digit(#[trigger] s.drop_last()[k]));
        lemma_digits_val_nonneg(s.drop_last());
    }
}

/// Read a decimal `u64` — such as a `code_id` attribute — from a string:
/// the number it denotes, if the string is one or more digits and the
/// value fits.
#[verifier::loop_isolation(false)]
pub fn parse_u64(s: &str) -> (r: Option<u64>)
    ensures
        r is Some <==> (s@.len() > 0 && (forall|k: int| 0 <= k < s@.len() ==> is_digit(
            #[trigger] s@[k],
        )) && digits_val(s@) <= u64::MAX),
        r matches Option::Some(v) ==> v == digits_val(s@),
{
    let n: usize = s.unicode_len();
    if n == 0 {
        return Option::None;
    }
    let mut acc: u64 = 0;
    let mut i: usize = 0;
    while i < n
        invariant
            0 <= i <= n,
            n == s@.len(),
            forall|k: int| 0 <= k < i ==> is_digit(#[trigger] s@[k]),
            acc == digits_val(s@.subrange(0, i as int)),
        decreases n - i,
    {
        let c: char = s.get_char(i);
        if !('0' <= c && c <= '9') {
            return Option::None;
        }
        let d: u64 = (c as u32 - 48) as u64;
        proof {
            assert(s@.subrange(0, i + 1).drop_last() =~= s@.subrange(0, i as int));
            assert(s@.subrange(0, i + 1).last() == s@[i as int]);
        }
        if acc > (u64::MAX - d) / 10 {
            proof {
                assert(digits_val(s@.subrange(0, i + 1)) > u64::MAX);
                if forall|k: int| 0 <= k < s@.len() ==> is_digit(#[trigger] s@[k]) {
                    lemma_digits_val_prefix(s@, i + 1);
                }
            }
            return Option::None;
        }
        acc = acc * 10 + d;
        i += 1;
    }
    proof {
        assert(s@.subrange(0, n as int) =~= s@);
    }
    Option::Some(acc)
}

} // verus!
