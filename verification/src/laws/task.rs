//! Laws on what a task may say.

use vstd::prelude::*;

use crate::error::Issue;
use crate::ip;
use crate::laws::text as texts;
use crate::task;
use crate::task::TaskModel;
use crate::text;

verus! {

// --------------------------------------------------------------------- hosts

/// Whether a byte is a letter or a digit.
pub open spec fn is_letter_or_digit(byte: u8) -> bool {
    ||| 'a' as u8 <= byte <= 'z' as u8
    ||| 'A' as u8 <= byte <= 'Z' as u8
    ||| '0' as u8 <= byte <= '9' as u8
}

/// A letter or a digit is a label.
pub proof fn law_letters_and_digits_are_labels(byte: u8)
    requires
        is_letter_or_digit(byte),
    ensures
        task::is_host_label(seq![byte]),
{
}

/// Two labels, one after the other, are a label.
pub proof fn law_labels_follow_one_another(a: Seq<u8>, b: Seq<u8>)
    requires
        task::is_host_label(a),
        task::is_host_label(b),
        a.len() + b.len() <= 63,
    ensures
        task::is_host_label(a + b),
{
}

/// Two labels with a hyphen between them are a label.
pub proof fn law_labels_join_by_a_hyphen(a: Seq<u8>, b: Seq<u8>)
    requires
        task::is_host_label(a),
        task::is_host_label(b),
        a.len() + 1 + b.len() <= 63,
    ensures
        task::is_host_label(a + seq!['-' as u8] + b),
{
}

/// A label is of 1 to 63 letters, digits and hyphens, and no hyphen stands at an end.
pub proof fn law_labels_are_plain(label: Seq<u8>, i: int)
    requires
        task::is_host_label(label),
        0 <= i < label.len(),
    ensures
        label.len() <= 63,
        is_letter_or_digit(label[i]) || (label[i] == '-' as u8 && 0 < i < label.len() - 1),
{
}

/// A lowercase label is a host.
pub proof fn law_labels_are_hosts(label: Seq<char>)
    requires
        task::is_host_label(text::utf8(label)),
        forall|i: int|
            0 <= i < text::utf8(label).len() ==> !('A' as u8 <= #[trigger] text::utf8(label)[i] <= 'Z' as u8),
    ensures
        task::is_network_host(label),
{
    let bytes = text::utf8(label);
    if bytes.contains(0x2eu8) {
        let i = choose|i: int| 0 <= i < bytes.len() && bytes[i] == 0x2e;
        assert(text::is_alphanumeric(bytes[i]) || bytes[i] == 0x2d);
    }
    texts::law_one_piece(bytes, 0x2e);
}

/// A host name with a dot and a lowercase label behind it is a host name.
pub proof fn law_hosts_are_labels_and_dots(host: Seq<char>, label: Seq<char>)
    requires
        task::is_network_host(host),
        ip::ip_value(text::utf8(host)) is None,
        task::is_host_label(text::utf8(label)),
        forall|i: int|
            0 <= i < text::utf8(label).len() ==> !('A' as u8 <= #[trigger] text::utf8(label)[i] <= 'Z' as u8),
        text::utf8(host).len() + 1 + text::utf8(label).len() <= 253,
    ensures
        task::is_network_host(host + seq!['.'] + label),
{
    let (a, b) = (text::utf8(host), text::utf8(label));
    texts::lemma_joined_by(host, '.', label);
    if b.contains(0x2eu8) {
        let i = choose|i: int| 0 <= i < b.len() && b[i] == 0x2e;
        assert(text::is_alphanumeric(b[i]) || b[i] == 0x2d);
    }
    texts::law_one_piece(b, 0x2e);
    texts::law_pieces_join(a, b, 0x2e);
    let whole = a + seq![0x2eu8] + b;
    let labels = text::split(whole, 0x2e);
    assert forall|i: int| 0 <= i < labels.len() implies task::is_host_label(#[trigger] labels[i]) by {
        if i < text::split(a, 0x2e).len() {
            assert(labels[i] == text::split(a, 0x2e)[i]);
        } else {
            assert(labels[i] == b);
        }
    }
    assert forall|i: int| 0 <= i < whole.len() implies !(0x41 <= #[trigger] whole[i] <= 0x5a) by {
        if i < a.len() {
            assert(whole[i] == a[i]);
        } else if i > a.len() {
            assert(whole[i] == b[i - a.len() - 1]);
        }
    }
}

/// Labels with dots between them.
pub open spec fn dotted(labels: Seq<Seq<char>>) -> Seq<char>
    decreases labels.len(),
{
    if labels.len() == 0 {
        Seq::<char>::empty()
    } else if labels.len() == 1 {
        labels[0]
    } else {
        dotted(labels.drop_last()) + seq!['.'] + labels.last()
    }
}

proof fn lemma_dotted(labels: Seq<Seq<char>>)
    requires
        labels.len() > 0,
        forall|k: int|
            0 <= k < labels.len() ==> task::is_host_label(text::utf8(#[trigger] labels[k])),
        forall|k: int, i: int|
            0 <= k < labels.len() && 0 <= i < text::utf8(labels[k]).len() ==> !(0x41
                <= #[trigger] text::utf8(labels[k])[i] <= 0x5a),
    ensures
        ({
            let bytes = text::utf8(dotted(labels));
            let parts = text::split(bytes, 0x2e);
            &&& bytes.len() > 0
            &&& forall|i: int| 0 <= i < parts.len() ==> task::is_host_label(#[trigger] parts[i])
            &&& forall|i: int| 0 <= i < bytes.len() ==> !(0x41 <= #[trigger] bytes[i] <= 0x5a)
        }),
    decreases labels.len(),
{
    let b = text::utf8(labels.last());
    assert(task::is_host_label(text::utf8(labels[labels.len() - 1])));
    if b.contains(0x2eu8) {
        let i = choose|i: int| 0 <= i < b.len() && b[i] == 0x2e;
        assert(text::is_alphanumeric(b[i]) || b[i] == 0x2d);
    }
    texts::law_one_piece(b, 0x2e);
    assert forall|i: int| 0 <= i < b.len() implies !(0x41 <= #[trigger] b[i] <= 0x5a) by {
        assert(b[i] == text::utf8(labels[labels.len() - 1])[i]);
    }
    if labels.len() > 1 {
        let rest = labels.drop_last();
        assert forall|k: int| 0 <= k < rest.len() implies task::is_host_label(
            text::utf8(#[trigger] rest[k]),
        ) by {
            assert(rest[k] == labels[k]);
        }
        lemma_dotted(rest);
        let a = text::utf8(dotted(rest));
        texts::lemma_joined_by(dotted(rest), '.', labels.last());
        texts::law_pieces_join(a, b, 0x2e);
        let whole = a + seq![0x2eu8] + b;
        let parts = text::split(whole, 0x2e);
        assert forall|i: int| 0 <= i < parts.len() implies task::is_host_label(
            #[trigger] parts[i],
        ) by {
            if i < text::split(a, 0x2e).len() {
                assert(parts[i] == text::split(a, 0x2e)[i]);
            } else {
                assert(parts[i] == b);
            }
        }
        assert forall|i: int| 0 <= i < whole.len() implies !(0x41 <= #[trigger] whole[i]
            <= 0x5a) by {
            if i < a.len() {
                assert(whole[i] == a[i]);
            } else if i > a.len() {
                assert(whole[i] == b[i - a.len() - 1]);
            }
        }
    }
}

/// Lowercase labels with dots between them are a host, where they are of at most 253 bytes
/// together.
pub proof fn law_dotted_labels_are_hosts(labels: Seq<Seq<char>>)
    requires
        labels.len() > 0,
        forall|k: int|
            0 <= k < labels.len() ==> task::is_host_label(text::utf8(#[trigger] labels[k])),
        forall|k: int, i: int|
            0 <= k < labels.len() && 0 <= i < text::utf8(labels[k]).len() ==> !('A' as u8
                <= #[trigger] text::utf8(labels[k])[i] <= 'Z' as u8),
        text::utf8(dotted(labels)).len() <= 253,
    ensures
        task::is_network_host(dotted(labels)),
{
    lemma_dotted(labels);
}

/// A name such as `my-service.example.com` is a host.
pub proof fn law_hyphenated_names_are_hosts()
    ensures
        task::is_network_host("my-service.example.com"@),
{
    reveal_strlit("my-service.example.com");
    let name = "my-service.example.com"@;
    let labels = seq![name.subrange(0, 10), name.subrange(11, 18), name.subrange(19, 22)];
    assert(vstd::utf8::is_ascii_chars(name));
    vstd::utf8::is_ascii_chars_encode_utf8(name);
    assert forall|k: int| 0 <= k < 3 implies task::is_host_label(text::utf8(#[trigger] labels[k]))
        by {
        assert(vstd::utf8::is_ascii_chars(labels[k]));
        vstd::utf8::is_ascii_chars_encode_utf8(labels[k]);
    }
    assert forall|k: int, i: int|
        0 <= k < 3 && 0 <= i < text::utf8(labels[k]).len() implies !('A' as u8
        <= #[trigger] text::utf8(labels[k])[i] <= 'Z' as u8) by {
        assert(vstd::utf8::is_ascii_chars(labels[k]));
        vstd::utf8::is_ascii_chars_encode_utf8(labels[k]);
    }
    assert(labels.drop_last() =~= seq![name.subrange(0, 10), name.subrange(11, 18)]);
    assert(labels.drop_last().drop_last() =~= seq![name.subrange(0, 10)]);
    reveal_with_fuel(dotted, 4);
    assert(dotted(labels) =~= name);
    law_dotted_labels_are_hosts(labels);
}

/// An IP address in lowercase is a host.
pub proof fn law_addresses_are_hosts(host: Seq<char>)
    requires
        ip::ip_value(text::utf8(host)) is Some,
        1 <= text::utf8(host).len() <= 253,
        forall|i: int|
            0 <= i < text::utf8(host).len() ==> !('A' as u8 <= #[trigger] text::utf8(host)[i] <= 'Z' as u8),
    ensures
        task::is_network_host(host),
{
}

/// A host has no uppercase letter and is of 1 to 253 bytes; one that is no IP address holds
/// lowercase letters, digits, hyphens and dots alone.
pub proof fn law_hosts_are_plain(host: Seq<char>, i: int)
    requires
        task::is_network_host(host),
        0 <= i < text::utf8(host).len(),
    ensures
        text::utf8(host).len() <= 253,
        !('A' as u8 <= text::utf8(host)[i] <= 'Z' as u8),
        ip::ip_value(text::utf8(host)) is None ==> {
            let byte = text::utf8(host)[i];
            is_letter_or_digit(byte) || byte == '-' as u8 || byte == '.' as u8
        },
{
    let bytes = text::utf8(host);
    assert(!(0x41 <= bytes[i] <= 0x5a));
    if ip::ip_value(bytes) is None && bytes[i] != 0x2e {
        texts::law_pieces_hold_every_byte(bytes, 0x2e, i);
        let k = choose|k: int|
            0 <= k < text::split(bytes, 0x2e).len() && (#[trigger] text::split(bytes, 0x2e)[k]).contains(bytes[i]);
        let label = text::split(bytes, 0x2e)[k];
        assert(task::is_host_label(label));
        let j = choose|j: int| 0 <= j < label.len() && label[j] == bytes[i];
        assert(text::is_alphanumeric(label[j]) || label[j] == 0x2d);
    }
}

/// No host name has an empty label: none begins or ends with a dot, and no two dots follow one
/// another.
pub proof fn law_host_names_have_no_empty_label(host: Seq<char>, i: int)
    requires
        task::is_network_host(host),
        ip::ip_value(text::utf8(host)) is None,
        0 <= i < text::utf8(host).len(),
        text::utf8(host)[i] == '.' as u8,
    ensures
        0 < i < text::utf8(host).len() - 1,
        text::utf8(host)[i + 1] != '.' as u8,
{
    let bytes = text::utf8(host);
    let (a, b) = (bytes.take(i), bytes.skip(i + 1));
    assert(bytes =~= a + seq![0x2eu8] + b);
    texts::law_pieces_join(a, b, 0x2e);
    texts::law_pieces_hold_no_separator(a, 0x2e);
    let parts = text::split(bytes, 0x2e);
    let n = text::split(a, 0x2e).len();
    assert(parts[0] == text::split(a, 0x2e)[0]);
    assert(task::is_host_label(parts[0]));
    texts::law_pieces_hold_no_separator(b, 0x2e);
    assert(parts[n as int] == text::split(b, 0x2e)[0]);
    assert(task::is_host_label(parts[n as int]));
    if b.len() > 0 && b[0] == 0x2e {
        text::lemma_first_index(b, 0x2e, 0);
        assert(text::split(b, 0x2e)[0].len() == 0);
    }
    if b.len() == 0 {
        texts::law_one_piece(b, 0x2e);
    }
    if a.len() == 0 {
        texts::law_one_piece(a, 0x2e);
    }
}

// --------------------------------------------------------------------- paths

/// Whether bytes are a name: not empty, neither `.` nor `..`, and free of NUL and `/`.
pub open spec fn is_name(bytes: Seq<u8>) -> bool {
    &&& bytes.len() > 0
    &&& !bytes.contains(0u8) && !bytes.contains('/' as u8)
    &&& !(bytes.len() == 1 && bytes[0] == '.' as u8)
    &&& !(bytes.len() == 2 && bytes[0] == '.' as u8 && bytes[1] == '.' as u8)
}

/// A name below the root is a normal path.
pub proof fn law_names_are_paths(name: Seq<char>)
    requires
        is_name(text::utf8(name)),
        text::utf8(name).len() < 4096,
    ensures
        task::is_normal_path(seq!['/'] + name),
{
    let b = text::utf8(name);
    texts::lemma_joined_by(Seq::<char>::empty(), '/', name);
    assert(Seq::<char>::empty() + seq!['/'] + name =~= seq!['/'] + name);
    let none = text::utf8(Seq::<char>::empty());
    assert(none =~= Seq::<u8>::empty());
    texts::law_one_piece(none, 0x2f);
    texts::law_one_piece(b, 0x2f);
    texts::law_pieces_join(none, b, 0x2f);
    let whole = none + seq![0x2fu8] + b;
    assert(text::split(whole, 0x2f)[1] == b);
    lemma_name_is_plain(b);
    assert forall|i: int| 0 <= i < whole.len() implies whole[i] != 0u8 by {
        if i > 0 {
            assert(whole[i] == b[i - 1]);
            assert(b.contains(b[i - 1]));
        }
    }
}

proof fn lemma_name_is_plain(b: Seq<u8>)
    requires
        is_name(b),
    ensures
        task::is_plain_component(b),
{
    if b == seq![0x2eu8] {
        assert(b.len() == 1 && b[0] == 0x2e);
    }
    if b == seq![0x2eu8, 0x2eu8] {
        assert(b.len() == 2 && b[0] == 0x2e && b[1] == 0x2e);
    }
}

/// A normal path with a name behind it is a normal path.
pub proof fn law_paths_extend(path: Seq<char>, name: Seq<char>)
    requires
        task::is_normal_path(path),
        is_name(text::utf8(name)),
        text::utf8(path).len() + 1 + text::utf8(name).len() <= 4096,
    ensures
        task::is_normal_path(path + seq!['/'] + name),
{
    let (a, b) = (text::utf8(path), text::utf8(name));
    texts::lemma_joined_by(path, '/', name);
    texts::law_one_piece(b, 0x2f);
    texts::law_pieces_join(a, b, 0x2f);
    lemma_name_is_plain(b);
    let whole = a + seq![0x2fu8] + b;
    let parts = text::split(whole, 0x2f);
    texts::law_pieces_hold_no_separator(a, 0x2f);
    assert forall|i: int| 1 <= i < parts.len() implies task::is_plain_component(#[trigger] parts[i]) by {
        if i < text::split(a, 0x2f).len() {
            assert(parts[i] == text::split(a, 0x2f)[i]);
        } else {
            assert(parts[i] == b);
        }
    }
    assert forall|i: int| 0 <= i < whole.len() implies whole[i] != 0u8 by {
        if i < a.len() {
            assert(a.contains(a[i]));
        } else if i > a.len() {
            assert(whole[i] == b[i - a.len() - 1]);
            assert(b.contains(b[i - a.len() - 1]));
        }
    }
}

/// A normal path starts at the root, is bounded and free of NUL, and behind every slash stands a
/// component that is neither empty nor `.` nor `..`.
pub proof fn law_paths_are_normal(path: Seq<char>, i: int)
    requires
        task::is_normal_path(path),
        0 <= i < text::utf8(path).len(),
    ensures
        2 <= text::utf8(path).len() <= 4096,
        text::utf8(path)[0] == '/' as u8,
        text::utf8(path)[i] != 0,
        text::utf8(path)[i] == '/' as u8 ==> {
            let rest = text::utf8(path).skip(i + 1);
            &&& rest.len() > 0
            &&& rest[0] != '/' as u8
            &&& !(rest[0] == '.' as u8 && (rest.len() == 1 || rest[1] == '/' as u8))
            &&& !(rest.len() >= 2 && rest[0] == '.' as u8 && rest[1] == '.' as u8 && (rest.len() == 2
                || rest[2] == '/' as u8))
        },
{
    let bytes = text::utf8(path);
    assert(bytes.contains(bytes[i]));
    if bytes[i] == 0x2f {
        let (a, b) = (bytes.take(i), bytes.skip(i + 1));
        assert(bytes =~= a + seq![0x2fu8] + b);
        texts::law_pieces_join(a, b, 0x2f);
        texts::law_pieces_hold_no_separator(a, 0x2f);
        texts::law_pieces_hold_no_separator(b, 0x2f);
        let n = text::split(a, 0x2f).len() as int;
        let first = text::split(b, 0x2f)[0];
        assert(text::split(bytes, 0x2f)[n] == first);
        assert(task::is_plain_component(first));
        let at = text::first_index(b, 0x2f);
        text::lemma_first_index_bounds(b, 0x2f);
        if b.len() == 0 {
            texts::law_one_piece(b, 0x2f);
        } else {
            if b[0] == 0x2f {
                text::lemma_first_index(b, 0x2f, 0);
                assert(first.len() == 0);
            }
            if b[0] == 0x2e && (b.len() == 1 || b[1] == 0x2f) {
                text::lemma_first_index(b, 0x2f, 1);
                assert(first =~= seq![0x2eu8]);
            }
            if b.len() >= 2 && b[0] == 0x2e && b[1] == 0x2e && (b.len() == 2 || b[2] == 0x2f) {
                text::lemma_first_index(b, 0x2f, 2);
                assert(first =~= seq![0x2eu8, 0x2eu8]);
            }
        }
    }
}

// --------------------------------------------------------------------- tasks

/// A valid task keeps every bound of the contract.
pub proof fn law_valid_tasks_are_bounded(t: TaskModel)
    requires
        t.valid(),
    ensures
        1 <= t.goal.len() <= 8192 && !text::is_blank_text(t.goal),
        text::is_identifier(t.idempotency_key, 128),
        t.files.len() <= 128 && t.tools.len() <= 64 && t.required_for.len() <= 64,
        t.network is Some ==> 1 <= t.network->0.len() <= 64,
        forall|i: int| 0 <= i < t.files.len() ==> task::is_normal_path((#[trigger] t.files[i]).path),
        forall|i: int| 0 <= i < t.tools.len() ==> text::is_identifier(#[trigger] t.tools[i], 64),
        forall|i: int|
            0 <= i < t.required_for.len() ==> text::is_identifier(#[trigger] t.required_for[i], 64),
        forall|i: int|
            t.network is Some && 0 <= i < t.network->0.len() ==> task::is_network_host(
                (#[trigger] t.network->0[i]).host,
            ) && t.network->0[i].port != 0,
        forall|i: int, j: int|
            0 <= i < j < t.files.len() ==> #[trigger] t.files[i] != #[trigger] t.files[j],
        forall|i: int, j: int|
            0 <= i < j < t.tools.len() ==> #[trigger] t.tools[i] != #[trigger] t.tools[j],
        forall|i: int, j: int|
            0 <= i < j < t.required_for.len() ==> #[trigger] t.required_for[i]
                != #[trigger] t.required_for[j],
        forall|i: int, j: int|
            t.network is Some && 0 <= i < j < t.network->0.len() ==> #[trigger] t.network->0[i]
                != #[trigger] t.network->0[j],
        t.budget.wall_time_seconds > 0 && t.budget.memory_bytes > 0,
        1 <= t.budget.max_parallel_agents <= 8,
{
    assert forall|i: int| 0 <= i < t.files.len() implies task::is_normal_path(
        (#[trigger] t.files[i]).path,
    ) by {
        assert(task::is_normal_path(t.files[i].path));
    }
}

/// A task that keeps every bound of the contract is valid.
pub proof fn law_bounded_tasks_are_valid(t: TaskModel)
    requires
        t.goal.len() <= 8192 && !text::is_blank_text(t.goal),
        text::is_identifier(t.idempotency_key, 128),
        t.files.len() <= 128 && t.tools.len() <= 64 && t.required_for.len() <= 64,
        t.network is Some ==> 1 <= t.network->0.len() <= 64,
        forall|i: int| 0 <= i < t.files.len() ==> task::is_normal_path((#[trigger] t.files[i]).path),
        forall|i: int| 0 <= i < t.tools.len() ==> text::is_identifier(#[trigger] t.tools[i], 64),
        forall|i: int|
            0 <= i < t.required_for.len() ==> text::is_identifier(#[trigger] t.required_for[i], 64),
        forall|i: int|
            t.network is Some && 0 <= i < t.network->0.len() ==> task::is_network_host(
                (#[trigger] t.network->0[i]).host,
            ) && t.network->0[i].port != 0,
        forall|i: int, j: int|
            0 <= i < j < t.files.len() ==> #[trigger] t.files[i] != #[trigger] t.files[j],
        forall|i: int, j: int|
            0 <= i < j < t.tools.len() ==> #[trigger] t.tools[i] != #[trigger] t.tools[j],
        forall|i: int, j: int|
            0 <= i < j < t.required_for.len() ==> #[trigger] t.required_for[i]
                != #[trigger] t.required_for[j],
        forall|i: int, j: int|
            t.network is Some && 0 <= i < j < t.network->0.len() ==> #[trigger] t.network->0[i]
                != #[trigger] t.network->0[j],
        t.budget.wall_time_seconds > 0 && t.budget.memory_bytes > 0,
        1 <= t.budget.max_parallel_agents <= 8,
    ensures
        t.valid(),
        t.issues().len() == 0,
{
    assert(t.files.no_duplicates());
    assert(t.tools.no_duplicates());
    assert(t.required_for.no_duplicates());
    if let Some(list) = t.network {
        assert(t.network->0 == list);
        assert(list.no_duplicates());
        assert(task::valid_destinations(list));
    }
    task::law_no_issues_means_valid(t);
}

/// Whether an issue is among those of a task.
pub open spec fn reports(t: TaskModel, field: Seq<char>, message: Seq<char>) -> bool {
    t.issues().contains((field, message))
}

proof fn lemma_within<X>(a: Seq<X>, b: Seq<X>, x: X)
    requires
        a.contains(x) || b.contains(x),
    ensures
        (a + b).contains(x),
{
    if a.contains(x) {
        let i = choose|i: int| 0 <= i < a.len() && a[i] == x;
        assert((a + b)[i] == x);
    } else {
        let i = choose|i: int| 0 <= i < b.len() && b[i] == x;
        assert((a + b)[a.len() + i] == x);
    }
}

proof fn lemma_one(bad: bool, field: Seq<char>, message: Seq<char>)
    requires
        bad,
    ensures
        task::issue_if(bad, field, message).contains((field, message)),
{
    assert(task::issue_if(bad, field, message)[0] == (field, message));
}

/// A goal, a key or a budget that breaks its rule is reported under its field.
pub proof fn law_broken_rules_are_reported(t: TaskModel)
    ensures
        text::is_blank_text(t.goal) || t.goal.len() > 8192 ==> reports(
            t,
            "goal"@,
            "must contain between 1 and 8192 non-blank characters"@,
        ),
        t.budget.wall_time_seconds == 0 ==> reports(
            t,
            "budget.wall_time_seconds"@,
            "must be greater than zero"@,
        ),
        t.budget.memory_bytes == 0 ==> reports(
            t,
            "budget.memory_bytes"@,
            "must be greater than zero"@,
        ),
        t.budget.max_parallel_agents == 0 || t.budget.max_parallel_agents > 8 ==> reports(
            t,
            "budget.max_parallel_agents"@,
            "must be between 1 and 8"@,
        ),
        t.files.len() > 128 ==> reports(
            t,
            "capabilities.filesystem"@,
            "must contain at most 128 entries"@,
        ),
        t.tools.len() > 64 ==> reports(t, "capabilities.tools"@, "must contain at most 64 entries"@),
        t.required_for.len() > 64 ==> reports(
            t,
            "approval.required_for"@,
            "must contain at most 64 entries"@,
        ),
        t.network is Some && (t.network->0.len() == 0 || t.network->0.len() > 64) ==> reports(
            t,
            "capabilities.network.destinations"@,
            "must contain between 1 and 64 entries"@,
        ),
{
    let goal = task::goal_issues(t.goal);
    let key = task::issue_if(
        !text::is_identifier(t.idempotency_key, task::MAX_IDEMPOTENCY_KEY_BYTES as nat),
        "idempotency_key"@,
        task::identifier_message(task::MAX_IDEMPOTENCY_KEY_BYTES as nat),
    );
    let capabilities = task::capability_issues(t.files, t.network, t.tools);
    let budget = task::budget_issues(t.budget);
    let approval = task::approval_issues(t.required_for);
    assert(t.issues() == goal + key + capabilities + budget + approval);
    assert forall|x: Issue|
        goal.contains(x) || capabilities.contains(x) || budget.contains(x) || approval.contains(
            x,
        ) implies #[trigger] t.issues().contains(x) by {
        if goal.contains(x) {
            lemma_within(goal, key, x);
        }
        if goal.contains(x) || capabilities.contains(x) {
            lemma_within(goal + key, capabilities, x);
        }
        if goal.contains(x) || capabilities.contains(x) || budget.contains(x) {
            lemma_within(goal + key + capabilities, budget, x);
        }
        lemma_within(goal + key + capabilities + budget, approval, x);
    }
    if text::is_blank_text(t.goal) || t.goal.len() > 8192 {
        lemma_one(true, "goal"@, "must contain between 1 and 8192 non-blank characters"@);
    }
    let wall = task::issue_if(
        t.budget.wall_time_seconds == 0,
        "budget.wall_time_seconds"@,
        "must be greater than zero"@,
    );
    let memory = task::issue_if(
        t.budget.memory_bytes == 0,
        "budget.memory_bytes"@,
        "must be greater than zero"@,
    );
    let agents = task::issue_if(
        !(1 <= t.budget.max_parallel_agents <= 8),
        "budget.max_parallel_agents"@,
        "must be between 1 and 8"@,
    );
    assert(budget == wall + memory + agents);
    if t.budget.wall_time_seconds == 0 {
        let x = ("budget.wall_time_seconds"@, "must be greater than zero"@);
        lemma_one(true, x.0, x.1);
        lemma_within(wall, memory, x);
        lemma_within(wall + memory, agents, x);
    }
    if t.budget.memory_bytes == 0 {
        let x = ("budget.memory_bytes"@, "must be greater than zero"@);
        lemma_one(true, x.0, x.1);
        lemma_within(wall, memory, x);
        lemma_within(wall + memory, agents, x);
    }
    if t.budget.max_parallel_agents == 0 || t.budget.max_parallel_agents > 8 {
        let x = ("budget.max_parallel_agents"@, "must be between 1 and 8"@);
        lemma_one(true, x.0, x.1);
        lemma_within(wall + memory, agents, x);
    }
    if t.required_for.len() > 64 {
        let x = ("approval.required_for"@, "must contain at most 64 entries"@);
        lemma_one(true, x.0, x.1);
        lemma_within(
            task::issue_if(true, x.0, x.1),
            task::identifier_list_issues(
                "approval.required_for"@,
                t.required_for,
                t.required_for.len(),
            ),
            x,
        );
    }
    let many = task::issue_if(
        t.files.len() > task::MAX_FILESYSTEM_CAPABILITIES,
        "capabilities.filesystem"@,
        "must contain at most 128 entries"@,
    );
    let files = task::file_issues(t.files, t.files.len());
    let network = task::network_issues(t.network);
    let tools = task::issue_if(
        t.tools.len() > task::MAX_TOOLS,
        "capabilities.tools"@,
        "must contain at most 64 entries"@,
    );
    let named = task::identifier_list_issues("capabilities.tools"@, t.tools, t.tools.len());
    assert(capabilities == many + files + network + tools + named);
    assert forall|x: Issue| many.contains(x) || network.contains(x) || tools.contains(x) implies
        #[trigger] capabilities.contains(x) by {
        if many.contains(x) {
            lemma_within(many, files, x);
        }
        if many.contains(x) || network.contains(x) {
            lemma_within(many + files, network, x);
        }
        lemma_within(many + files + network, tools, x);
        lemma_within(many + files + network + tools, named, x);
    }
    if t.files.len() > 128 {
        lemma_one(true, "capabilities.filesystem"@, "must contain at most 128 entries"@);
    }
    if t.tools.len() > 64 {
        lemma_one(true, "capabilities.tools"@, "must contain at most 64 entries"@);
    }
    if let Some(list) = t.network {
        if list.len() == 0 || list.len() > 64 {
            let x = (
                "capabilities.network.destinations"@,
                "must contain between 1 and 64 entries"@,
            );
            lemma_one(true, x.0, x.1);
            lemma_within(
                task::issue_if(true, x.0, x.1),
                task::destination_issues(list, list.len()),
                x,
            );
        }
    }
}

} // verus!
