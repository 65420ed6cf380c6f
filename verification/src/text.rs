//! Small verified string utilities: lengths, first-word scanning, name
//! formatting, and a simple person record.

use vstd::prelude::*;
use vstd::string::{string_is_ascii, StrSliceExecFns, StringExecFns, StringSliceAdditionalSpecFns};
use crate::codec::{lemma_scan_to, scan_to};

verus! {

/// The number of characters in `s`.
pub fn str_len(s: &String) -> (r: usize)
    ensures
        r == s@.len(),
{
    s.as_str().unicode_len()
}

/// Appends a friendly tail to `s`.
pub fn str_len_mut(s: &mut String)
    ensures
        final(s)@ == old(s)@ + ", world"@,
{
    s.append(", world");
}

/// An owned string handed out to the caller.
pub fn dangle() -> (r: String)
    ensures
        r@ == "dangerous string"@,
{
    String::from_str("dangerous string")
}

/// The index of the first space in `s`'s bytes, or its byte length when
/// there is none.
pub fn first_word(s: &str) -> (r: usize)
    ensures
        r == scan_to(s.spec_bytes(), 0, 0x20),
        r <= s.spec_bytes().len(),
{
    let bytes: &[u8] = s.as_bytes();
    let n: usize = bytes.len();
    let mut i: usize = 0;
    while i < n
        invariant
            0 <= i <= n,
            n == s.spec_bytes().len(),
            bytes@ == s.spec_bytes(),
            forall|m: int| 0 <= m < i ==> #[trigger] bytes@[m] != 0x20,
        decreases n - i,
    {
        if bytes[i] == 0x20 {
            proof {
                lemma_scan_to(s.spec_bytes(), 0, i as int, 0x20);
            }
            return i;
        }
        i = i + 1;
    }
    proof {
        lemma_scan_to(s.spec_bytes(), 0, n as int, 0x20);
    }
    n
}

/// A full name as an owned string.
pub fn get_full_name_string() -> (r: String)
    ensures
        r@ == "Sooyoung Kim String"@,
{
    String::from_str("Sooyoung Kim String")
}

/// A full name as a borrowed literal.
pub fn get_full_name_ref() -> (r: &'static str)
    ensures
        r@ == "Sooyoung Kim $str"@,
{
    "Sooyoung Kim $str"
}

/// Picks the first of two names.
pub fn get_random_name<'a>(name1: &'a str, _name2: &'a str) -> (r: &'a str)
    ensures
        r@ == name1@,
{
    name1
}

/// Hands a borrowed name straight back.
pub fn get_name_ref(name: &str) -> (r: &str)
    ensures
        r@ == name@,
{
    name
}

/// The number of characters in `s`, read through a borrow.
pub fn get_str_len_wo_ownership(s: &String) -> (r: usize)
    ensures
        r == s@.len(),
{
    s.as_str().unicode_len()
}

/// Empties `s`.
pub fn clear_string(s: &mut String)
    ensures
        final(s)@ == Seq::<char>::empty(),
{
    *s = String::new();
}

/// A sample (first name, last name, age) triple.
pub fn get_tuple() -> (r: (String, String, i32))
    ensures
        r.0@ == "John"@,
        r.1@ == "Doe"@,
        r.2 == 30,
{
    (String::from_str("John"), String::from_str("Doe"), 30)
}

/// A named person with an age.
pub struct Person {
    pub first_name: String,
    pub last_name: String,
    pub age: i32,
}

impl Person {
    /// The first character of the first name, as a one-character slice.
    pub fn first_char_of_first_name(&self) -> (r: &str)
        requires
            self.first_name@.len() > 0,
            string_is_ascii(&self.first_name),
        ensures
            r@ == self.first_name@.subrange(0, 1),
    {
        self.first_name.as_str().substring_ascii(0, 1)
    }

    /// Adds a year and reports the new age.
    pub fn increase_age(&mut self) -> (r: i32)
        requires
            old(self).age < i32::MAX,
        ensures
            final(self).age == old(self).age + 1,
            final(self).first_name == old(self).first_name,
            final(self).last_name == old(self).last_name,
            r == final(self).age,
    {
        self.age = self.age + 1;
        self.age
    }
}

} // verus!
