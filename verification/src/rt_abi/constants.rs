//! Constants that compiled code holds as numbers or bytes.
use crate::rt_abi::caches;
use crate::rt_abi::caches::{intern_keyword, Event, JitStats};
use crate::value::{Name, NameView, Value, ValueView};
use vstd::prelude::*;
use vstd::string::*;
use vstd::utf8::*;

verus! {

/// `char::from_u32`: the character of a number, and none where the number is that of a surrogate or
/// beyond the last character.
pub assume_specification[ char::from_u32 ](i: u32) -> (r: Option<char>)
    ensures
        r is Some <==> i <= 0xD7FF || 0xE000 <= i <= 0x10FFFF,
        r is Some ==> r->0 as int == i,
;

/// `std::str::from_utf8`: the text that the bytes encode, and none where they encode no text.
#[verifier::external_body]
fn decoded(bytes: &[u8]) -> (r: Option<&str>)
    ensures
        r is Some <==> valid_utf8(bytes@),
        r is Some ==> r->0@ == decode_utf8(bytes@),
{
    std::str::from_utf8(bytes).ok()
}

/// The text that the bytes encode, or `other` where they encode none.
pub open spec fn text_or(bytes: Seq<u8>, other: Seq<char>) -> Seq<char> {
    if valid_utf8(bytes) { decode_utf8(bytes) } else { other }
}

/// The text that the bytes encode, or `other`, for the callers that have what was decoded in hand.
pub fn decoded_or(decoded: Option<&str>, other: &str) -> (r: String)
    ensures
        r@ == (match decoded {
            Some(t) => t@,
            None => other@,
        }),
{
    match decoded {
        Some(t) => t.to_owned(),
        None => other.to_owned(),
    }
}

/// A character; the replacement character where the number is that of none.
pub fn rt_const_char(c: u32) -> (r: Value)
    ensures
        r@ matches ValueView::Char(x) && x as int == (if c <= 0xD7FF || 0xE000 <= c <= 0x10FFFF { c as int } else { 0xFFFD }),
{
    match char::from_u32(c) {
        Some(x) => Value::Char(x),
        None => Value::Char('\u{FFFD}'),
    }
}

/// A text.
pub fn rt_const_string(bytes: &[u8]) -> (r: Value)
    ensures
        r@ == ValueView::Str(text_or(bytes@, "<invalid utf8>"@)),
{
    Value::Str(decoded_or(decoded(bytes), "<invalid utf8>"))
}

/// A symbol without a namespace.
pub fn rt_const_symbol(bytes: &[u8]) -> (r: Value)
    ensures
        r@ == ValueView::Symbol(NameView { ns: None, name: text_or(bytes@, "??"@) }),
{
    Value::Symbol(Name { ns: None, name: decoded_or(decoded(bytes), "??") })
}

/// The number of a keyword in the table of interned ones.
pub fn rt_const_keyword(table: &mut Vec<String>, bytes: &[u8]) -> (r: usize)
    ensures
        r == caches::name_at(caches::table_view(old(table)@), text_or(bytes@, "??"@), 0),
        r < final(table)@.len(),
        caches::table_view(final(table)@)[r as int] == text_or(bytes@, "??"@),
        caches::table_view(final(table)@) == (if r < old(table)@.len() { caches::table_view(old(table)@) } else { caches::table_view(old(table)@).push(text_or(bytes@, "??"@)) }),
{
    let name = decoded_or(decoded(bytes), "??");
    intern_keyword(table, name.as_str())
}

/// Fills the slot of a call site with the keyword that it stands for, and counts that.  A slot holds
/// zero, or the number of a keyword and one.
pub fn rt_kw_ic_fill(table: &mut Vec<String>, stats: &mut JitStats, bytes: &[u8], slot: &mut usize) -> (r: usize)
    ensures
        r == caches::name_at(caches::table_view(old(table)@), text_or(bytes@, "??"@), 0),
        r < final(table)@.len(),
        caches::table_view(final(table)@)[r as int] == text_or(bytes@, "??"@),
        caches::table_view(final(table)@) == (if r < old(table)@.len() { caches::table_view(old(table)@) } else { caches::table_view(old(table)@).push(text_or(bytes@, "??"@)) }),
        *final(slot) == r + 1,
        final(stats).spec_count(Event::KeywordFill) == (if old(stats).spec_count(Event::KeywordFill) == u64::MAX { 0u64 } else { (old(stats).spec_count(Event::KeywordFill) + 1) as u64 }),
        forall|o: Event| o != Event::KeywordFill ==> #[trigger] final(stats).spec_count(o) == old(stats).spec_count(o),
{
    stats.bump(Event::KeywordFill);
    let n: usize = rt_const_keyword(table, bytes);
    let len: usize = table.len();
    assert(n < len);
    *slot = n + 1;
    n
}

} // verus!
