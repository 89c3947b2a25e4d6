//! The arguments and the environment of a child process.

use vstd::prelude::*;

use crate::process::{
    MAX_ENVIRONMENT_NAME_BYTES, MAX_ENVIRONMENT_VALUE_BYTES, MAX_ENVIRONMENT_VARIABLES,
    MAX_TOTAL_ENVIRONMENT_BYTES, ProcessAdapterError,
};
use crate::text;
use crate::text::{bytes_contain, clone_texts, text_eq};
use crate::tool;
use crate::tool::are_valid_arguments;

verus! {

/// Trusted policy for model-controlled arguments passed to one configured executable.
///
/// The policy receives only dynamic arguments. Fixed arguments are supplied by trusted startup
/// configuration and are validated separately for size and NUL bytes.
pub trait ProcessArgumentPolicy {
    /// What the policy may answer to arguments: anything, unless the policy says more.
    open spec fn answers(&self, arguments: Seq<Seq<char>>, r: bool) -> bool {
        true
    }

    /// Whether the arguments may be passed.
    fn allows(&self, arguments: &[String]) -> (r: bool)
        ensures
            self.answers(text::texts(arguments@), r),
    ;
}

/// The fixed arguments, and the dynamic ones behind them.
pub fn all_arguments(fixed: &Vec<String>, dynamic: &Vec<String>) -> (r: Vec<String>)
    ensures
        text::texts(r@) == text::texts(fixed@) + text::texts(dynamic@),
{
    let mut all = clone_texts(fixed);
    let mut tail = clone_texts(dynamic);
    let ghost a = all@;
    let ghost b = tail@;
    all.append(&mut tail);
    assert(text::texts(all@) =~= text::texts(a) + text::texts(b));
    all
}

/// Fixed and dynamic arguments together keep the limits of a tool's arguments.
pub fn validate_arguments(fixed: &Vec<String>, dynamic: &Vec<String>) -> (r: Result<
    (),
    ProcessAdapterError,
>)
    ensures
        r is Ok <==> tool::valid_arguments(text::texts(fixed@) + text::texts(dynamic@)),
        r is Err ==> r->Err_0 == ProcessAdapterError::InvalidArguments,
{
    let all = all_arguments(fixed, dynamic);
    if are_valid_arguments(&all) {
        Ok(())
    } else {
        Err(ProcessAdapterError::InvalidArguments)
    }
}

// --------------------------------------------------------------- environment

/// One environment variable: its name and its value.
pub type Variable = (Seq<char>, Seq<char>);

/// The variables of a list of entries.
pub open spec fn variables(entries: Seq<(String, String)>) -> Seq<Variable> {
    entries.map_values(|entry: (String, String)| (entry.0@, entry.1@))
}

/// A letter of the ASCII alphabet or an underscore.
pub open spec fn is_name_start(byte: u8) -> bool {
    0x41 <= byte <= 0x5a || 0x61 <= byte <= 0x7a || byte == 0x5f
}

/// A name of a variable: letters, digits and underscores, not starting with a digit.
pub open spec fn is_environment_name(name: Seq<char>) -> bool {
    let bytes = text::utf8(name);
    &&& 1 <= bytes.len() <= MAX_ENVIRONMENT_NAME_BYTES
    &&& is_name_start(bytes[0])
    &&& forall|i: int|
        0 <= i < bytes.len() ==> is_name_start(#[trigger] bytes[i]) || 0x30 <= bytes[i] <= 0x39
}

/// Decides [`is_environment_name`].
#[must_use]
pub fn is_valid_environment_name(name: &str) -> (r: bool)
    ensures
        r == is_environment_name(name@),
{
    let bytes = name.as_bytes();
    if bytes.len() == 0 || bytes.len() > MAX_ENVIRONMENT_NAME_BYTES {
        return false;
    }
    let mut i: usize = 0;
    while i < bytes.len()
        invariant
            i <= bytes@.len(),
            bytes@ == text::utf8(name@),
            1 <= bytes@.len() <= MAX_ENVIRONMENT_NAME_BYTES,
            i > 0 ==> is_name_start(bytes@[0]),
            forall|k: int|
                0 <= k < i ==> is_name_start(#[trigger] bytes@[k]) || 0x30 <= bytes@[k] <= 0x39,
        decreases bytes@.len() - i,
    {
        let byte: u8 = bytes[i];
        let start = (0x41 <= byte && byte <= 0x5a) || (0x61 <= byte && byte <= 0x7a) || byte
            == 0x5f;
        let digit = 0x30 <= byte && byte <= 0x39;
        if !start && (i == 0 || !digit) {
            return false;
        }
        i = i + 1;
    }
    true
}

/// The bytes of a list of variables, names and values together.
pub open spec fn environment_bytes(list: Seq<Variable>) -> nat
    decreases list.len(),
{
    if list.len() == 0 {
        0
    } else {
        environment_bytes(list.drop_last()) + text::utf8(list.last().0).len() + text::utf8(
            list.last().1,
        ).len()
    }
}

/// Variables within the limits, no name twice.
pub open spec fn valid_environment(list: Seq<Variable>) -> bool {
    &&& list.len() <= MAX_ENVIRONMENT_VARIABLES
    &&& forall|i: int|
        0 <= i < list.len() ==> is_environment_name((#[trigger] list[i]).0) && text::utf8(
            list[i].1,
        ).len() <= MAX_ENVIRONMENT_VALUE_BYTES && !text::has_nul(list[i].1)
    &&& forall|i: int, j: int|
        0 <= i < j < list.len() ==> (#[trigger] list[i]).0 != (#[trigger] list[j]).0
    &&& environment_bytes(list) <= MAX_TOTAL_ENVIRONMENT_BYTES
}

proof fn lemma_environment_prefix(list: Seq<Variable>, n: int)
    requires
        0 <= n <= list.len(),
    ensures
        environment_bytes(list.take(n)) <= environment_bytes(list),
    decreases list.len(),
{
    if n == list.len() {
        assert(list.take(n) =~= list);
    } else {
        lemma_environment_prefix(list.drop_last(), n);
        assert(list.drop_last().take(n) =~= list.take(n));
    }
}

fn has_earlier_name(entries: &Vec<(String, String)>, at: usize) -> (r: bool)
    requires
        at < entries@.len(),
    ensures
        r == exists|k: int|
            0 <= k < at && (#[trigger] variables(entries@)[k]).0 == variables(
                entries@,
            )[at as int].0,
{
    let ghost list = variables(entries@);
    let mut k: usize = 0;
    while k < at
        invariant
            k <= at < entries@.len(),
            list == variables(entries@),
            forall|j: int| 0 <= j < k ==> (#[trigger] list[j]).0 != list[at as int].0,
        decreases at - k,
    {
        assert(list[k as int].0 == entries@[k as int].0@);
        assert(list[at as int].0 == entries@[at as int].0@);
        if text_eq(entries[k].0.as_str(), entries[at].0.as_str()) {
            return true;
        }
        k = k + 1;
    }
    false
}

/// Takes the environment of a child. Every name occurs once, so the order means nothing.
pub fn validate_environment(entries: Vec<(String, String)>) -> (r: Result<
    Vec<(String, String)>,
    ProcessAdapterError,
>)
    ensures
        r is Ok <==> valid_environment(variables(entries@)),
        r is Ok ==> r->Ok_0 == entries,
        r is Err ==> r->Err_0 == ProcessAdapterError::InvalidConfig,
{
    let ghost list = variables(entries@);
    if entries.len() > MAX_ENVIRONMENT_VARIABLES {
        return Err(ProcessAdapterError::InvalidConfig);
    }
    let mut total: usize = 0;
    let mut i: usize = 0;
    assert(list.take(0) =~= Seq::<Variable>::empty());
    while i < entries.len()
        invariant
            i <= entries@.len() <= MAX_ENVIRONMENT_VARIABLES,
            list == variables(entries@),
            total == environment_bytes(list.take(i as int)),
            total <= MAX_TOTAL_ENVIRONMENT_BYTES,
            forall|k: int|
                0 <= k < i ==> is_environment_name((#[trigger] list[k]).0) && text::utf8(
                    list[k].1,
                ).len() <= MAX_ENVIRONMENT_VALUE_BYTES && !text::has_nul(list[k].1),
            forall|a: int, b: int|
                0 <= a < b < i ==> (#[trigger] list[a]).0 != (#[trigger] list[b]).0,
        decreases entries@.len() - i,
    {
        let ghost next = list.take(i + 1);
        proof {
            assert(list[i as int] == (entries@[i as int].0@, entries@[i as int].1@));
            assert(next.drop_last() =~= list.take(i as int));
            assert(next.last() == list[i as int]);
        }
        let value = entries[i].1.as_str().as_bytes();
        if !is_valid_environment_name(entries[i].0.as_str()) || value.len()
            > MAX_ENVIRONMENT_VALUE_BYTES || bytes_contain(value, 0) {
            return Err(ProcessAdapterError::InvalidConfig);
        }
        total = total + entries[i].0.as_str().as_bytes().len() + value.len();
        if total > MAX_TOTAL_ENVIRONMENT_BYTES {
            proof {
                lemma_environment_prefix(list, i + 1);
            }
            return Err(ProcessAdapterError::InvalidConfig);
        }
        if has_earlier_name(&entries, i) {
            return Err(ProcessAdapterError::InvalidConfig);
        }
        i = i + 1;
    }
    assert(list.take(i as int) =~= list);
    Ok(entries)
}

} // verus!
