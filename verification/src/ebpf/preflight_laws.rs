//! What is found out about the host, the object file and the probes before and beside capture.
use vstd::prelude::*;

use crate::text::{is_white_space, trimmed, trimmed_end, trimmed_start};

use super::attachment::{existence, AttachmentStep, AttachmentView, TracepointLook};
use super::diagnostics::{count_of, counter_total, DiagnosticsCacheView, FiringView, FiringsReply};
use super::host::{is_bpffs, unprivileged_status, SettingReadView};
use super::object::opened_check;
use super::probe_event::{observation_of, EbpfProcessProbeEvent, EbpfProcessProbeEventBody};
use super::tracepoints::{
    EbpfProcessObservationOptionalTracepointPairState, TracepointSpecView,
};
use super::types::{EbpfProcessLifecycleKind, EbpfProcessObservationView};

verus! {

/// A filesystem is the eBPF filesystem exactly if the lower half of its type is that one's.
pub proof fn law_bpffs_is_told_by_the_lower_half(kind: u64)
    ensures
        is_bpffs(kind) <==> kind % 0x1_0000_0000 == 0xcafe_4a11,
{
    assert(kind & 0xffff_ffff == kind % 0x1_0000_0000) by (bit_vector);
}

/// An opened file is taken as an object file exactly if it is a regular one of up to 64 MiB.
pub proof fn law_object_is_a_small_regular_file(path: Seq<char>, is_file: bool, size: u64)
    ensures
        opened_check(path, is_file, size) is Ok <==> is_file && size <= 67_108_864,
{
}

proof fn lemma_trimmed_start(before: Seq<char>, digit: char, after: Seq<char>)
    requires
        forall|index: int| 0 <= index < before.len() ==> is_white_space(#[trigger] before[index]),
        !is_white_space(digit),
    ensures
        trimmed_start(before + seq![digit] + after) == seq![digit] + after,
    decreases before.len(),
{
    let text = before + seq![digit] + after;
    if before.len() == 0 {
        assert(text =~= seq![digit] + after);
    } else {
        let rest = before.drop_first();
        assert forall|index: int| 0 <= index < rest.len() implies is_white_space(
            #[trigger] rest[index],
        ) by {
            assert(rest[index] == before[index + 1]);
        }
        lemma_trimmed_start(rest, digit, after);
        assert(text[0] == before[0]);
        assert(text.drop_first() =~= rest + seq![digit] + after);
    }
}

proof fn lemma_trimmed_end(digit: char, after: Seq<char>)
    requires
        forall|index: int| 0 <= index < after.len() ==> is_white_space(#[trigger] after[index]),
        !is_white_space(digit),
    ensures
        trimmed_end(seq![digit] + after) == seq![digit],
    decreases after.len(),
{
    let text = seq![digit] + after;
    if after.len() == 0 {
        assert(text =~= seq![digit]);
    } else {
        let rest = after.drop_last();
        lemma_trimmed_end(digit, rest);
        assert(text.last() == after.last());
        assert(text.drop_last() =~= seq![digit] + rest);
    }
}

/// Of the setting for processes without privileges, 0 tells that they may use eBPF, 1 that they may
/// not until the next start of the host, and 2 that they may not; any other single character tells
/// nothing. White space around it does not matter.
pub proof fn law_setting_is_told_by_its_digit(
    before: Seq<char>,
    digit: char,
    after: Seq<char>,
    path: Seq<char>,
)
    requires
        forall|index: int| 0 <= index < before.len() ==> is_white_space(#[trigger] before[index]),
        forall|index: int| 0 <= index < after.len() ==> is_white_space(#[trigger] after[index]),
        !is_white_space(digit),
    ensures
        ({
            let status = unprivileged_status(
                SettingReadView::Value(before + seq![digit] + after),
                path,
            );
            &&& status is Enabled <==> digit == '0'
            &&& status is PermanentlyDisabled <==> digit == '1'
            &&& status is Disabled <==> digit == '2'
        }),
{
    lemma_trimmed_start(before, digit, after);
    lemma_trimmed_end(digit, after);
    let told = trimmed(before + seq![digit] + after);
    assert(told == seq![digit]);
    reveal_strlit("0");
    reveal_strlit("1");
    reveal_strlit("2");
    assert("0"@ =~= seq!['0']);
    assert("1"@ =~= seq!['1']);
    assert("2"@ =~= seq!['2']);
    assert(told[0] == digit);
    assert("0"@[0] == '0' && "1"@[0] == '1' && "2"@[0] == '2');
}

proof fn lemma_not_decided(looks: Seq<TracepointLook>, index: int)
    requires
        0 <= index < 2,
        index <= looks.len(),
        forall|earlier: int|
            0 <= earlier < index ==> (#[trigger] looks[earlier]) is NotFound,
    ensures
        existence(looks.take(index)) is None,
{
    if index == 1 {
        let first = looks.take(1);
        assert(first.last() == looks[0]);
        assert(first.drop_last().len() == 0);
        assert(existence(first.drop_last()) is None);
    }
}

proof fn lemma_decided(looks: Seq<TracepointLook>, index: int)
    requires
        0 <= index < looks.len(),
        existence(looks.take(index + 1)) is Some,
    ensures
        existence(looks) == existence(looks.take(index + 1)),
    decreases looks.len(),
{
    if index + 1 == looks.len() {
        assert(looks.take(index + 1) =~= looks);
    } else {
        let rest = looks.drop_last();
        assert(rest.take(index + 1) =~= looks.take(index + 1));
        lemma_decided(rest, index);
    }
}

/// Whether the kernel has a tracepoint is told by the first of the two places that does not lack
/// it. Only where both lack it, it does not exist; and while places are left, nothing is decided.
pub proof fn law_first_telling_place_decides(looks: Seq<TracepointLook>, index: int)
    requires
        0 <= index < 2,
        forall|earlier: int|
            0 <= earlier < index ==> (#[trigger] looks[earlier]) is NotFound,
    ensures
        looks.len() == index ==> existence(looks) is None,
        index < looks.len() && looks[index] is Found ==> existence(looks) == Some(
            Ok::<bool, Seq<char>>(true),
        ),
        index < looks.len() ==> (looks[index] matches TracepointLook::Failed { error } ==> existence(
            looks,
        ) == Some(Err::<bool, Seq<char>>(error@))),
        index == 1 && index < looks.len() && looks[index] is NotFound ==> existence(looks) == Some(
            Ok::<bool, Seq<char>>(false),
        ),
{
    if index <= looks.len() {
        lemma_not_decided(looks, index);
        assert(looks.take(looks.len() as int) =~= looks);
    }
    if index < looks.len() {
        let seen = looks.take(index + 1);
        assert(seen.drop_last() =~= looks.take(index));
        assert(seen.last() == looks[index]);
        if !(looks[index] is NotFound) || index == 1 {
            lemma_decided(looks, index);
        }
    }
}

/// Of a pair of probes that the kernel has, both are attached, the one at the entry first, and only
/// then the next pair is looked up; of a pair that it lacks, none is attached.
pub proof fn law_pair_is_attached_whole(attachment: AttachmentView)
    requires
        attachment.step() is LookUp,
    ensures
        attachment.waiting.len() == 0,
        attachment.step() == AttachmentStep::LookUp(attachment.pairs[0]),
        ({
            let pair = attachment.pairs[0];
            let entered = attachment.after_look_up(
                EbpfProcessObservationOptionalTracepointPairState::Attached,
            );
            let whole = entered.after_attach().after_attach();
            &&& entered.step() == AttachmentStep::Attach(pair.enter)
            &&& entered.after_attach().step() == AttachmentStep::Attach(pair.exit)
            &&& whole.waiting.len() == 0
            &&& whole.attached == attachment.attached.push(pair.enter).push(pair.exit)
            &&& whole.pairs == attachment.pairs.skip(1)
        }),
        ({
            let lacking = attachment.after_look_up(
                EbpfProcessObservationOptionalTracepointPairState::KernelMissing,
            );
            &&& lacking.waiting.len() == 0
            &&& lacking.attached == attachment.attached
            &&& lacking.pairs == attachment.pairs.skip(1)
        }),
{
    let pair = attachment.pairs[0];
    let entered = attachment.after_look_up(
        EbpfProcessObservationOptionalTracepointPairState::Attached,
    );
    assert(entered.waiting =~= seq![pair.enter, pair.exit]);
    assert(entered.after_attach().waiting =~= seq![pair.exit]);
    assert(entered.after_attach().after_attach().waiting =~= Seq::empty());
}

/// Counters add up, however they are parted, up to the largest number that fits.
pub proof fn law_counters_add_up(first: Seq<u64>, second: Seq<u64>)
    ensures
        counter_total(first + second) == if counter_total(first) + counter_total(second)
            <= u64::MAX {
            counter_total(first) + counter_total(second)
        } else {
            u64::MAX as int
        },
        first.len() == 1 ==> counter_total(first) == first[0],
        first.len() == 0 ==> counter_total(first) == 0,
    decreases second.len(),
{
    if first.len() == 1 {
        assert(counter_total(first.drop_last()) == 0);
    }
    if second.len() == 0 {
        assert(first + second =~= first);
    } else {
        law_counters_add_up(first, second.drop_last());
        assert((first + second).drop_last() =~= first + second.drop_last());
        assert((first + second).last() == second.last());
    }
}

/// How often a probe fired is told by the first count under its three names, whatever other counts
/// there are; without such a count nothing is told.
pub proof fn law_count_goes_by_the_three_names(
    firings: Seq<FiringView>,
    listed: TracepointSpecView,
    index: int,
)
    requires
        0 <= index <= firings.len(),
        forall|earlier: int|
            0 <= earlier < index ==> (#[trigger] firings[earlier]).program_name
                != listed.program_name || firings[earlier].category != listed.category
                || firings[earlier].tracepoint_name != listed.tracepoint_name,
    ensures
        index == firings.len() ==> count_of(firings, listed) is None,
        index < firings.len() && firings[index].program_name == listed.program_name
            && firings[index].category == listed.category && firings[index].tracepoint_name
            == listed.tracepoint_name ==> count_of(firings, listed) == Some(
            firings[index].firing_count,
        ),
    decreases index,
{
    if index > 0 {
        let rest = firings.drop_first();
        assert(firings[0].program_name != listed.program_name || firings[0].category
            != listed.category || firings[0].tracepoint_name != listed.tracepoint_name);
        assert forall|earlier: int| 0 <= earlier < index - 1 implies (
        #[trigger] rest[earlier]).program_name != listed.program_name || rest[earlier].category
            != listed.category || rest[earlier].tracepoint_name != listed.tracepoint_name by {
            assert(rest[earlier] == firings[earlier + 1]);
        }
        if index < firings.len() {
            assert(rest[index - 1] == firings[index]);
        }
        law_count_goes_by_the_three_names(rest, listed, index - 1);
    }
}

/// A fresh cache has nothing current; what was read is current for one second after the reading, and
/// a clock that went back does not make it old.
pub proof fn law_reading_is_current_for_a_second(now_ns: u64, later_ns: u64, reply: FiringsReply)
    ensures
        !DiagnosticsCacheView::fresh().current_at(later_ns),
        DiagnosticsCacheView::fresh().after_reading(now_ns, reply).current_at(later_ns) <==> later_ns
            < now_ns + 1_000_000_000,
{
}

/// A reading that failed is told as such, and what the probes once answered is kept beside the counts
/// of each later reading.
pub proof fn law_reading_is_told(cache: DiagnosticsCacheView, now_ns: u64, reply: FiringsReply)
    ensures
        ({
            let next = cache.after_reading(now_ns, reply);
            &&& next.active_liveness == cache.active_liveness
            &&& next.last_refresh_ns == Some(now_ns)
            &&& reply matches Err(error) ==> (next.snapshot matches Err(reason) && reason
                == error.text())
            &&& reply matches Ok(None) ==> next.snapshot is Err
            &&& reply matches Ok(Some(firings)) ==> (cache.active_liveness matches Some(known) ==> (
            next.snapshot matches Ok(told) && told.firings == firings && told.active_liveness == Ok::<
                Seq<super::diagnostics::LivenessProgramView>,
                Seq<char>,
            >(known)))
            &&& cache.asks_for_probe(reply) <==> (reply matches Ok(Some(_)))
                && cache.active_liveness is None
        }),
{
}

/// The system calls that move the counters are made until they showed something, and then no more:
/// the later counts are told where they could be read, and otherwise the earlier ones.
pub proof fn law_probes_answer_once(
    cache: DiagnosticsCacheView,
    before: Seq<FiringView>,
    triggered: Result<(), Seq<char>>,
    reply: FiringsReply,
    later: FiringsReply,
)
    requires
        cache.active_liveness is None,
    ensures
        ({
            let next = cache.after_probe(before, triggered, reply);
            let shown = triggered is Ok && (reply matches Ok(Some(_)));
            &&& next.last_refresh_ns == cache.last_refresh_ns
            &&& next.snapshot matches Ok(told) && (told.active_liveness is Ok <==> shown)
                && told.firings == if shown {
                reply->Ok_0->0
            } else {
                before
            }
            &&& shown ==> !next.asks_for_probe(later)
            &&& !shown ==> (next.asks_for_probe(later) <==> (later matches Ok(Some(_))))
        }),
{
}

/// The end of a descriptor, of a range of them or of a program is told as the kernel wrote it.
pub proof fn law_end_is_read_as_written(event: EbpfProcessProbeEvent)
    ensures
        event.body matches EbpfProcessProbeEventBody::CloseTracepointObserved(seen) ==> (
        observation_of(event) matches EbpfProcessObservationView::Close(close)
            && close.process.tgid == event.tgid && close.process.pid == event.pid && close.fd
            == seen.fd && close.fd_generation == seen.fd_generation),
        event.body matches EbpfProcessProbeEventBody::CloseRangeTracepointObserved(seen) ==> (
        observation_of(event) matches EbpfProcessObservationView::CloseRange(range)
            && range.process.tgid == event.tgid && range.process.pid == event.pid && range.first_fd
            == seen.first_fd && range.last_fd == seen.last_fd),
        event.body is ProcessExitObserved ==> (observation_of(event) matches
            EbpfProcessObservationView::ProcessLifecycle(lifecycle) && lifecycle.process.tgid
            == event.tgid && lifecycle.process.pid == event.pid && lifecycle.kind
            == EbpfProcessLifecycleKind::Exit),
        event.body is ProcessExecObserved ==> (observation_of(event) matches
            EbpfProcessObservationView::ProcessLifecycle(lifecycle) && lifecycle.process.tgid
            == event.tgid && lifecycle.process.pid == event.pid && lifecycle.kind
            == EbpfProcessLifecycleKind::Exec),
{
}

} // verus!
