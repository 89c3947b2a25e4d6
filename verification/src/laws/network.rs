//! Laws on exchanges.

use vstd::prelude::*;

use crate::ip;
use crate::ip::IpModel;
use crate::network;
use crate::network::{
    ActionModel, EventModel, ExchangeModel, ExchangeProgress, ExchangeRequest,
    NetworkAdapterError,
};
use crate::text;

verus! {

/// The bytes that the events of a trace brought, in the order in which they came.
pub open spec fn arrived(trace: Seq<(EventModel, u128)>) -> Seq<u8>
    decreases trace.len(),
{
    if trace.len() == 0 {
        Seq::<u8>::empty()
    } else {
        arrived(trace.drop_last()) + match trace.last().0 {
            EventModel::Received { bytes } => bytes,
            _ => Seq::<u8>::empty(),
        }
    }
}

/// How many bytes the events of a trace took.
pub open spec fn taken(trace: Seq<(EventModel, u128)>) -> nat
    decreases trace.len(),
{
    if trace.len() == 0 {
        0
    } else {
        taken(trace.drop_last()) + match trace.last().0 {
            EventModel::Written { count } => count,
            _ => 0,
        }
    }
}

proof fn lemma_going(start: ExchangeModel, trace: Seq<(EventModel, u128)>)
    requires
        network::exchange_after(start, trace) is Going,
        start.received.len() == 0,
        start.offset == 0,
        start.bounded(),
    ensures
        network::exchange_after(start, trace)->Going_0.received == arrived(trace),
        network::exchange_after(start, trace)->Going_0.offset == taken(trace),
        network::exchange_after(start, trace)->Going_0.request == start.request,
        network::exchange_after(start, trace)->Going_0.deadline == start.deadline,
        network::exchange_after(start, trace)->Going_0.bounded(),
    decreases trace.len(),
{
    if trace.len() > 0 {
        lemma_going(start, trace.drop_last());
        let m = network::exchange_after(start, trace.drop_last())->Going_0;
        network::law_exchange_is_bounded(m, trace.last().0, trace.last().1);
        let next = network::exchange_after(start, trace)->Going_0;
        assert(next.received =~= arrived(trace));
    } else {
        assert(start.received =~= arrived(trace));
    }
}

/// A completed exchange returns the bytes of all that was received, in the order in which it
/// came, and nothing else; it has written its whole request, and ended before the budget of its
/// task did.
pub proof fn law_responses_are_what_arrived_in_order(
    operation: ExchangeRequest,
    timeout: u128,
    now: u128,
    start: ExchangeModel,
    trace: Seq<(EventModel, u128)>,
    bytes: Seq<u8>,
)
    requires
        network::exchange_start(operation, timeout, now) == Ok::<
            ExchangeModel,
            NetworkAdapterError,
        >(start),
        network::exchange_after(start, trace) == ExchangeProgress::Ended(Ok(bytes)),
    ensures
        network::exchange_after(start, trace.drop_last()) is Going ==> bytes == arrived(trace)
            && taken(trace) == operation.request.len(),
        exists|n: int|
            0 <= n < trace.len() && bytes == arrived(#[trigger] trace.take(n + 1)) && taken(
                trace.take(n + 1),
            ) == operation.request.len() && trace[n].1 < operation.deadline->0,
    decreases trace.len(),
{
    let before = trace.drop_last();
    match network::exchange_after(start, before) {
        ExchangeProgress::Ended(_) => {
            law_responses_are_what_arrived_in_order(operation, timeout, now, start, before, bytes);
            let n = choose|n: int|
                0 <= n < before.len() && bytes == arrived(#[trigger] before.take(n + 1)) && taken(
                    before.take(n + 1),
                ) == operation.request.len() && before[n].1 < operation.deadline->0;
            assert(before.take(n + 1) =~= trace.take(n + 1));
        },
        ExchangeProgress::Going(m) => {
            lemma_going(start, before);
            let n = trace.len() - 1;
            assert(trace.take(n + 1) =~= trace);
            assert(arrived(trace) =~= m.received);
        },
    }
}

/// An exchange goes to the IP address that its host writes, to its port; no name is looked up,
/// and no unspecified, multicast or broadcast address is gone to.
pub proof fn law_exchanges_go_to_written_addresses(host: Seq<char>, port: u16, request_len: nat)
    ensures
        ({
            let bytes = text::utf8(host);
            let target = network::exchange_target(host, port, request_len);
            &&& !(1 <= bytes.len() <= 253) || port == 0 || request_len > 65_536 <==> target == Err::<
                IpModel,
                NetworkAdapterError,
            >(NetworkAdapterError::InvalidOperation)
            &&& target is Ok ==> ip::ip_value(bytes) == Some(target->Ok_0)
            &&& target is Ok ==> match target->Ok_0 {
                IpModel::V4(o) => !(o[0] == 0 && o[1] == 0 && o[2] == 0 && o[3] == 0) && !(224
                    <= o[0] < 240) && !(o[0] == 255 && o[1] == 255 && o[2] == 255 && o[3] == 255),
                IpModel::V6(g) => g[0] < 0xff00 && !(g[0] == 0 && g[1] == 0 && g[2] == 0 && g[3]
                    == 0 && g[4] == 0 && g[5] == 0 && g[6] == 0 && g[7] == 0),
            }
            &&& target is Err && target->Err_0 != NetworkAdapterError::InvalidOperation
                ==> target->Err_0 == NetworkAdapterError::UnsupportedDestination
        }),
{
}

/// Every other written address is gone to.
pub proof fn law_ordinary_addresses_are_gone_to(
    host: Seq<char>,
    port: u16,
    request_len: nat,
    address: IpModel,
)
    requires
        1 <= text::utf8(host).len() <= 253,
        port != 0,
        request_len <= 65_536,
        ip::ip_value(text::utf8(host)) == Some(address),
        match address {
            IpModel::V4(o) => (o[0] != 0 || o[1] != 0 || o[2] != 0 || o[3] != 0) && (o[0] < 224
                || o[0] >= 240) && (o[0] != 255 || o[1] != 255 || o[2] != 255 || o[3] != 255),
            IpModel::V6(g) => g[0] < 0xff00 && (g[0] != 0 || g[1] != 0 || g[2] != 0 || g[3] != 0
                || g[4] != 0 || g[5] != 0 || g[6] != 0 || g[7] != 0),
        },
    ensures
        network::exchange_target(host, port, request_len) == Ok::<IpModel, NetworkAdapterError>(
            address,
        ),
{
}

/// A step may take the configured time and no more, and never longer than the budget lasts; with
/// the budget used up there is no step. Later there is no more time than before.
pub proof fn law_steps_end_with_the_budget(
    deadline: u128,
    timeout: u128,
    now: u128,
    later: u128,
)
    requires
        now <= later,
    ensures
        network::step_timeout(deadline, timeout, now) is None <==> deadline <= now,
        now < deadline ==> {
            let t = network::step_timeout(deadline, timeout, now)->0;
            &&& t <= timeout && now + t <= deadline
            &&& t == timeout || now + t == deadline
            &&& timeout > 0 ==> t > 0
        },
        later < deadline ==> network::step_timeout(deadline, timeout, later)->0
            <= network::step_timeout(deadline, timeout, now)->0,
{
}

/// An exchange begins by connecting to its address and port, within the budget and the
/// configured time.
pub proof fn law_exchanges_begin_by_connecting(
    operation: ExchangeRequest,
    timeout: u128,
    now: u128,
)
    ensures
        network::exchange_start(operation, timeout, now) is Ok <==> network::exchange_target(
            operation.host,
            operation.port,
            operation.request.len(),
        ) is Ok && operation.deadline is Some && now < operation.deadline->0,
        network::exchange_start(operation, timeout, now) is Ok ==> {
            let start = network::exchange_start(operation, timeout, now)->Ok_0;
            &&& start.action() is Connect
            &&& Some(start.action()->Connect_address) == ip::ip_value(text::utf8(operation.host))
            &&& start.action()->Connect_port == operation.port
            &&& start.action()->Connect_timeout <= timeout
            &&& now + start.action()->Connect_timeout <= operation.deadline->0
            &&& start.request == operation.request
        },
        network::exchange_target(operation.host, operation.port, operation.request.len()) is Ok
            && operation.deadline is None ==> network::exchange_start(operation, timeout, now)
            == Err::<ExchangeModel, NetworkAdapterError>(NetworkAdapterError::ScopeMismatch),
        network::exchange_target(operation.host, operation.port, operation.request.len()) is Ok
            && operation.deadline is Some && now >= operation.deadline->0
            ==> network::exchange_start(operation, timeout, now) == Err::<
            ExchangeModel,
            NetworkAdapterError,
        >(NetworkAdapterError::BudgetExceeded),
{
}

/// Only the peer that was asked for is talked to.
pub proof fn law_other_peers_are_refused(
    m: ExchangeModel,
    peer: Option<(IpModel, u16)>,
    now: u128,
)
    requires
        m.action() is Connect,
        now < m.deadline,
    ensures
        peer == Some((m.address, m.port)) ==> m.step(EventModel::Connected { peer }, now) is Going,
        peer != Some((m.address, m.port)) ==> m.step(EventModel::Connected { peer }, now)
            == ExchangeProgress::Ended(Err(NetworkAdapterError::PeerMismatch)),
{
}

/// The order of an exchange: connect, write all of the request, end the writing, read.
pub proof fn law_requests_are_written_before_anything_is_read(
    m: ExchangeModel,
    now: u128,
    count: nat,
)
    requires
        m.bounded(),
        now < m.deadline,
    ensures
        m.action() is Connect && m.installed is None && m.offset < m.request.len() ==> ({
            let next = m.step(EventModel::Connected { peer: Some((m.address, m.port)) }, now);
            next is Going && next->Going_0.action() is SetWriteTimeout
        }),
        m.action() is Connect && m.offset == m.request.len() ==> ({
            let next = m.step(EventModel::Connected { peer: Some((m.address, m.port)) }, now);
            next is Going && next->Going_0.action() is ShutdownWrite
        }),
        m.action() is SetWriteTimeout ==> ({
            let next = m.step(EventModel::TimeoutSet, now);
            next is Going && next->Going_0.action() == (ActionModel::Write { offset: m.offset })
        }),
        m.action() is Write && 0 < count && m.offset + count < m.request.len() ==> ({
            let next = m.step(EventModel::Written { count }, now);
            &&& next is Going && next->Going_0.offset == m.offset + count
            &&& next->Going_0.action() is SetWriteTimeout || next->Going_0.action() == (
            ActionModel::Write { offset: m.offset + count })
        }),
        m.action() is Write && 0 < count && m.offset + count == m.request.len() ==> ({
            let next = m.step(EventModel::Written { count }, now);
            next is Going && next->Going_0.action() is ShutdownWrite
        }),
        m.action() is Write && (count == 0 || m.offset + count > m.request.len()) ==> m.step(
            EventModel::Written { count },
            now,
        ) == ExchangeProgress::Ended(Err(NetworkAdapterError::WriteFailed)),
        m.action() is ShutdownWrite ==> ({
            let next = m.step(EventModel::WriteShutDown, now);
            next is Going && next->Going_0.action() is SetReadTimeout
        }),
        m.action() is SetReadTimeout ==> ({
            let next = m.step(EventModel::TimeoutSet, now);
            next is Going && next->Going_0.action() is Read
        }),
{
}

/// The time that a socket is given is what the configured time and the budget leave.
pub proof fn law_sockets_get_the_time_that_is_left(m: ExchangeModel, event: EventModel, now: u128)
    requires
        m.step(event, now) is Going,
        event is Connected || event is Written || event is WriteShutDown || event is Received,
    ensures
        now < m.deadline,
        ({
            let next = m.step(event, now)->Going_0;
            let t = if next.action() is SetWriteTimeout {
                next.action()->SetWriteTimeout_timeout
            } else {
                next.action()->SetReadTimeout_timeout
            };
            &&& next.action() is SetWriteTimeout || next.action() is SetReadTimeout ==> t
                <= m.timeout && now + t <= m.deadline && (t == m.timeout || now + t == m.deadline)
            &&& next.action() is Write || next.action() is Read ==> next.installed is Some
                && next.installed->0 <= m.timeout && now + next.installed->0 <= m.deadline
        }),
{
}

/// A response is read in pieces of at most 8192 bytes, never more than one byte beyond a mebibyte,
/// and one beyond a mebibyte is refused; one of a mebibyte is not.
pub proof fn law_responses_are_bounded(m: ExchangeModel, bytes: Seq<u8>, now: u128)
    requires
        m.bounded(),
        m.action() is Read,
    ensures
        1 <= m.action()->Read_limit <= 8_192,
        m.received.len() + m.action()->Read_limit <= 1_048_577,
        m.action()->Read_limit == 8_192 || m.received.len() + m.action()->Read_limit == 1_048_577,
        bytes.len() > 0 && m.received.len() + bytes.len() > 1_048_576 ==> m.step(
            EventModel::Received { bytes },
            now,
        ) == ExchangeProgress::Ended(Err(NetworkAdapterError::ResponseTooLarge)),
        bytes.len() > 0 && m.received.len() + bytes.len() <= 1_048_576 && now < m.deadline ==> {
            let next = m.step(EventModel::Received { bytes }, now);
            &&& next is Going
            &&& next->Going_0.received == m.received + bytes
            &&& next->Going_0.action() is Read || next->Going_0.action() is SetReadTimeout
        },
        bytes.len() == 0 && now < m.deadline ==> m.step(EventModel::Received { bytes }, now)
            == ExchangeProgress::Ended(Ok(m.received)),
{
}

/// Nothing goes on past the deadline of the task, and what fails there is reported as the budget.
pub proof fn law_nothing_goes_on_past_the_deadline(m: ExchangeModel, event: EventModel, now: u128)
    requires
        now >= m.deadline,
    ensures
        !(event is TimeoutSet) ==> m.step(event, now) is Ended && m.step(event, now)->Ended_0 is Err,
        event is Failed || event is Connected ==> m.step(event, now) == ExchangeProgress::Ended(
            Err(NetworkAdapterError::BudgetExceeded),
        ),
{
}

/// A failure is named after what was tried.
pub proof fn law_failures_name_what_was_tried(m: ExchangeModel, now: u128)
    requires
        now < m.deadline,
    ensures
        m.step(EventModel::Failed, now) == ExchangeProgress::Ended(
            Err(
                match m.action() {
                    ActionModel::Connect { .. } => NetworkAdapterError::ConnectFailed,
                    ActionModel::SetWriteTimeout { .. } => {
                        NetworkAdapterError::SocketConfigurationFailed
                    },
                    ActionModel::SetReadTimeout { .. } => {
                        NetworkAdapterError::SocketConfigurationFailed
                    },
                    ActionModel::Write { .. } => NetworkAdapterError::WriteFailed,
                    ActionModel::ShutdownWrite => NetworkAdapterError::WriteFailed,
                    ActionModel::Read { .. } => NetworkAdapterError::ReadFailed,
                },
            ),
        ),
{
}

/// An exchange whose peer answers in time returns the answer.
pub proof fn law_answered_exchanges_return_the_answer(
    operation: ExchangeRequest,
    timeout: u128,
    now: u128,
    answer: Seq<u8>,
)
    requires
        network::exchange_start(operation, timeout, now) is Ok,
        operation.request.len() > 0,
        0 < answer.len() <= 1_048_576,
    ensures
        ({
            let start = network::exchange_start(operation, timeout, now)->Ok_0;
            network::exchange_after(
                start,
                seq![
                    (EventModel::Connected { peer: Some((start.address, operation.port)) }, now),
                    (EventModel::TimeoutSet, now),
                    (EventModel::Written { count: operation.request.len() }, now),
                    (EventModel::WriteShutDown, now),
                    (EventModel::TimeoutSet, now),
                    (EventModel::Received { bytes: answer }, now),
                    (EventModel::Received { bytes: Seq::<u8>::empty() }, now),
                ],
            ) == ExchangeProgress::Ended(Ok(answer))
        }),
{
    let start = network::exchange_start(operation, timeout, now)->Ok_0;
    let e1 = (EventModel::Connected { peer: Some((start.address, operation.port)) }, now);
    let e2 = (EventModel::TimeoutSet, now);
    let e3 = (EventModel::Written { count: operation.request.len() }, now);
    let e4 = (EventModel::WriteShutDown, now);
    let e6 = (EventModel::Received { bytes: answer }, now);
    let e7 = (EventModel::Received { bytes: Seq::<u8>::empty() }, now);
    let t7 = seq![e1, e2, e3, e4, e2, e6, e7];
    let t6 = seq![e1, e2, e3, e4, e2, e6];
    let t5 = seq![e1, e2, e3, e4, e2];
    let t4 = seq![e1, e2, e3, e4];
    let t3 = seq![e1, e2, e3];
    let t2 = seq![e1, e2];
    let t1 = seq![e1];
    assert(t7.drop_last() =~= t6);
    assert(t6.drop_last() =~= t5);
    assert(t5.drop_last() =~= t4);
    assert(t4.drop_last() =~= t3);
    assert(t3.drop_last() =~= t2);
    assert(t2.drop_last() =~= t1);
    assert(t1.drop_last() =~= Seq::<(EventModel, u128)>::empty());
    let p0 = network::exchange_after(start, Seq::<(EventModel, u128)>::empty());
    assert(p0 == ExchangeProgress::Going(start));
    let p1 = network::exchange_after(start, t1);
    assert(p1 is Going && p1->Going_0.phase is SettingWrite);
    let p2 = network::exchange_after(start, t2);
    assert(p2 is Going && p2->Going_0.phase is Writing);
    let p3 = network::exchange_after(start, t3);
    assert(p3 is Going && p3->Going_0.phase is ShuttingDown);
    let p4 = network::exchange_after(start, t4);
    assert(p4 is Going && p4->Going_0.phase is SettingRead);
    let p5 = network::exchange_after(start, t5);
    assert(p5 is Going && p5->Going_0.phase is Reading);
    let p6 = network::exchange_after(start, t6);
    assert(start.received + answer =~= answer);
    assert(p6 is Going && p6->Going_0.phase is Reading && p6->Going_0.received == answer);
}

} // verus!
