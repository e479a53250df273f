use vstd::prelude::*;
use crate::decimal::{
    decimal_of, digits_value, fixed_value, fraction_part, parse_decimal, pow10, whole_part, Decimal,
};
use crate::text::{
    field_after, field_after_in, field_before, field_before_in, find, find_from, find_in, lemma_absent_from_lines, lines,
    occurs_at, split_lines, take_until,
};

verus! {

/// Packets sent for one latency sample.
pub const LATENCY_PACKETS: u32 = 1;

/// Packets sent in the burst that packet loss is measured over.
pub const PACKET_LOSS_PACKETS: u32 = 10;

/// The host family, which decides how the ping facility is asked for a
/// number of packets.
#[derive(Clone, Copy, Debug, PartialEq, Eq, Structural)]
pub enum Platform {
    Windows,
    Unix,
}

/// The option that sets the packet count of `ping` on `platform`.
pub fn count_flag(platform: Platform) -> (r: &'static str)
    ensures
        platform == Platform::Windows ==> r@ == "-n"@,
        platform == Platform::Unix ==> r@ == "-c"@,
{
    match platform {
        Platform::Windows => "-n",
        Platform::Unix => "-c",
    }
}

/// What one run of the ping facility gave back: whether it exited with
/// success, and what it wrote to standard output.
#[derive(Clone, Debug)]
pub struct PingOutcome {
    pub success: bool,
    pub stdout: String,
}

pub open spec fn time_marker() -> Seq<char> {
    seq!['t', 'i', 'm', 'e', '=']
}

pub open spec fn loss_phrase() -> Seq<char> {
    seq!['p', 'a', 'c', 'k', 'e', 't', ' ', 'l', 'o', 's', 's']
}

pub open spec fn received_marker() -> Seq<char> {
    seq!['r', 'e', 'c', 'e', 'i', 'v', 'e', 'd', ',', ' ']
}

/// The round-trip time that one line reports, in whole microseconds: the
/// field after the first `time=`, up to a space or the end of the line, read
/// as milliseconds.
pub open spec fn line_latency(line: Seq<char>) -> Option<u64> {
    match field_after(line, time_marker(), ' ') {
        Some(f) => match decimal_of(f) {
            Some(d) => if fixed_value(d, 3) <= u64::MAX {
                Some(fixed_value(d, 3) as u64)
            } else {
                None
            },
            None => None,
        },
        None => None,
    }
}

/// The round-trip time that the first line of `ls` holding `time=` reports;
/// absent if no line holds it or that line's field does not read.
pub open spec fn latency_of_lines(ls: Seq<Seq<char>>) -> Option<u64>
    decreases ls.len(),
{
    if ls.len() == 0 {
        None
    } else if find(ls[0], time_marker()) is Some {
        line_latency(ls[0])
    } else {
        latency_of_lines(ls.drop_first())
    }
}

proof fn lemma_no_line_latency(ls: Seq<Seq<char>>)
    requires
        forall|k: int| 0 <= k < ls.len() ==> find(#[trigger] ls[k], time_marker()) is None,
    ensures
        latency_of_lines(ls) is None,
    decreases ls.len(),
{
    if ls.len() > 0 {
        assert forall|k: int| 0 <= k < ls.drop_first().len() implies find(
            #[trigger] ls.drop_first()[k],
            time_marker(),
        ) is None by {
            assert(ls.drop_first()[k] == ls[k + 1]);
        }
        lemma_no_line_latency(ls.drop_first());
    }
}

/// Output that holds no `time=` anywhere (all packets lost, say) gives no
/// latency sample.
pub proof fn lemma_no_time_marker_no_latency(ping: PingOutcome)
    requires
        find(ping.stdout@, time_marker()) is None,
    ensures
        ping_latency(ping) is None,
        latency_of_lines(lines(ping.stdout@)) is None,
{
    let ls = lines(ping.stdout@);
    assert forall|k: int| 0 <= k < ls.len() implies find(#[trigger] ls[k], time_marker()) is None by {
        lemma_absent_from_lines(ping.stdout@, time_marker(), k);
    }
    lemma_no_line_latency(ls);
}

proof fn lemma_first_line_latency(ls: Seq<Seq<char>>, k: int)
    requires
        0 <= k < ls.len(),
        forall|j: int| 0 <= j < k ==> find(#[trigger] ls[j], time_marker()) is None,
        find(ls[k], time_marker()) is Some,
    ensures
        latency_of_lines(ls) == line_latency(ls[k]),
    decreases k,
{
    if k > 0 {
        assert forall|j: int| 0 <= j < k - 1 implies find(#[trigger] ls.drop_first()[j], time_marker())
            is None by {
            assert(ls.drop_first()[j] == ls[j + 1]);
        }
        assert(ls.drop_first()[k - 1] == ls[k]);
        assert(find(ls[0], time_marker()) is None);
        lemma_first_line_latency(ls.drop_first(), k - 1);
    }
}

/// A successful ping whose first line with a `time=` marker reads
/// `time=42.0 ms` there gives a latency of exactly 42 milliseconds.
pub proof fn lemma_reported_42_ms(ping: PingOutcome, k: int, pre: Seq<char>, post: Seq<char>)
    requires
        ping.success,
        0 <= k < lines(ping.stdout@).len(),
        forall|j: int| 0 <= j < k ==> find(#[trigger] lines(ping.stdout@)[j], time_marker()) is None,
        lines(ping.stdout@)[k] == pre + time_marker() + seq!['4', '2', '.', '0', ' ', 'm', 's'] + post,
        find(lines(ping.stdout@)[k], time_marker()) == Some(pre.len() as int),
    ensures
        ping_latency(ping) == Some(42_000u64),
{
    let ls = lines(ping.stdout@);
    let line = ls[k];
    let rest = line.skip(pre.len() + time_marker().len() as int);
    assert(rest =~= seq!['4', '2', '.', '0', ' ', 'm', 's'] + post);
    let sp = seq![' '];
    assert(!occurs_at(rest, sp, 0) && !occurs_at(rest, sp, 1) && !occurs_at(rest, sp, 2) && !occurs_at(rest, sp, 3)) by {
        assert(rest.subrange(0, 1)[0] == '4');
        assert(rest.subrange(1, 2)[0] == '2');
        assert(rest.subrange(2, 3)[0] == '.');
        assert(rest.subrange(3, 4)[0] == '0');
    }
    assert(rest.subrange(4, 5) =~= sp);
    assert(find(rest, sp) == Some(4int)) by {
        reveal_with_fuel(find_from, 5);
    }
    let f = seq!['4', '2', '.', '0'];
    assert(take_until(rest, ' ') =~= f);
    assert(field_after(line, time_marker(), ' ') == Some(f));
    let pt = seq!['.'];
    assert(!occurs_at(f, pt, 0) && !occurs_at(f, pt, 1)) by {
        assert(f.subrange(0, 1)[0] == '4');
        assert(f.subrange(1, 2)[0] == '2');
    }
    assert(f.subrange(2, 3) =~= pt);
    assert(find(f, pt) == Some(2int)) by {
        reveal_with_fuel(find_from, 3);
    }
    let ds = whole_part(f) + fraction_part(f);
    assert(ds =~= seq!['4', '2', '0']);
    assert(digits_value(ds) == 420) by {
        assert(ds.drop_last() =~= seq!['4', '2']);
        assert(ds.drop_last().drop_last() =~= seq!['4']);
        assert(ds.drop_last().drop_last().drop_last() =~= Seq::<char>::empty());
        reveal_with_fuel(digits_value, 4);
    }
    assert(decimal_of(f) == Some(Decimal { mantissa: 420, scale: 1 }));
    assert(pow10(2) == 100) by {
        reveal_with_fuel(pow10, 3);
    }
    assert(line_latency(line) == Some(42_000u64));
    lemma_first_line_latency(ls, k);
}

/// The loss percentage that a summary line reports: the field after the
/// first `received, `, up to the next `%`, read as a percentage from 0 to 100.
pub open spec fn line_loss(line: Seq<char>) -> Option<Decimal> {
    match field_before(line, received_marker(), '%') {
        Some(f) => match decimal_of(f) {
            Some(d) => if d.mantissa <= 100 * pow10(d.scale as nat) {
                Some(d)
            } else {
                None
            },
            None => None,
        },
        None => None,
    }
}

/// The loss percentage that the first line of `ls` holding `packet loss`
/// reports; absent if no line holds it or that line's field does not read.
pub open spec fn loss_of_lines(ls: Seq<Seq<char>>) -> Option<Decimal>
    decreases ls.len(),
{
    if ls.len() == 0 {
        None
    } else if find(ls[0], loss_phrase()) is Some {
        line_loss(ls[0])
    } else {
        loss_of_lines(ls.drop_first())
    }
}

proof fn lemma_first_line_loss(ls: Seq<Seq<char>>, k: int)
    requires
        0 <= k < ls.len(),
        forall|j: int| 0 <= j < k ==> find(#[trigger] ls[j], loss_phrase()) is None,
        find(ls[k], loss_phrase()) is Some,
    ensures
        loss_of_lines(ls) == line_loss(ls[k]),
    decreases k,
{
    if k > 0 {
        assert forall|j: int| 0 <= j < k - 1 implies find(#[trigger] ls.drop_first()[j], loss_phrase())
            is None by {
            assert(ls.drop_first()[j] == ls[j + 1]);
        }
        assert(ls.drop_first()[k - 1] == ls[k]);
        assert(find(ls[0], loss_phrase()) is None);
        lemma_first_line_loss(ls.drop_first(), k - 1);
    }
}

/// A successful burst whose first line holding `packet loss` reads
/// `received, 30%` there gives a loss of exactly 30 percent.
pub proof fn lemma_reported_30_percent(ping: PingOutcome, k: int, pre: Seq<char>, post: Seq<char>)
    requires
        ping.success,
        0 <= k < lines(ping.stdout@).len(),
        forall|j: int| 0 <= j < k ==> find(#[trigger] lines(ping.stdout@)[j], loss_phrase()) is None,
        find(lines(ping.stdout@)[k], loss_phrase()) is Some,
        lines(ping.stdout@)[k] == pre + received_marker() + seq!['3', '0', '%'] + post,
        find(lines(ping.stdout@)[k], received_marker()) == Some(pre.len() as int),
    ensures
        ping_loss(ping) == Some(Decimal { mantissa: 30, scale: 0 }),
{
    let ls = lines(ping.stdout@);
    let line = ls[k];
    let rest = line.skip(pre.len() + received_marker().len() as int);
    assert(rest =~= seq!['3', '0', '%'] + post);
    let pc = seq!['%'];
    assert(!occurs_at(rest, pc, 0) && !occurs_at(rest, pc, 1)) by {
        assert(rest.subrange(0, 1)[0] == '3');
        assert(rest.subrange(1, 2)[0] == '0');
    }
    assert(rest.subrange(2, 3) =~= pc);
    assert(find(rest, pc) == Some(2int)) by {
        reveal_with_fuel(find_from, 3);
    }
    let f = seq!['3', '0'];
    assert(rest.take(2) =~= f);
    assert(field_before(line, received_marker(), '%') == Some(f));
    let pt = seq!['.'];
    assert(!occurs_at(f, pt, 0) && !occurs_at(f, pt, 1)) by {
        assert(f.subrange(0, 1)[0] == '3');
        assert(f.subrange(1, 2)[0] == '0');
    }
    assert(find(f, pt) is None) by {
        reveal_with_fuel(find_from, 3);
    }
    assert(whole_part(f) + fraction_part(f) =~= f);
    assert(digits_value(f) == 30) by {
        assert(f.drop_last() =~= seq!['3']);
        assert(f.drop_last().drop_last() =~= Seq::<char>::empty());
        reveal_with_fuel(digits_value, 3);
    }
    assert(pow10(0) == 1);
    assert(line_loss(line) == Some(Decimal { mantissa: 30, scale: 0 }));
    lemma_first_line_loss(ls, k);
}

fn latency_of_line(line: &Vec<char>, marker: &Vec<char>) -> (r: Option<u64>)
    requires
        marker@ == time_marker(),
    ensures
        r == line_latency(line@),
{
    match field_after_in(line, marker, ' ') {
        None => None,
        Some(f) => match parse_decimal(&f) {
            None => None,
            Some(d) => d.to_fixed(3),
        },
    }
}

/// The round-trip time, in microseconds, that ping's output reports in the
/// `time=` field (milliseconds) of its first line holding that marker.
pub fn extract_latency_from_ping_output(output: &str) -> (r: Option<u64>)
    ensures
        r == latency_of_lines(lines(output@)),
{
    let ls = split_lines(output);
    let ghost all = lines(output@);
    let marker = vec!['t', 'i', 'm', 'e', '='];
    assert(marker@ =~= time_marker());
    let mut i: usize = 0;
    assert(all.skip(0) =~= all);
    while i < ls.len()
        invariant
            all == lines(output@),
            ls@.len() == all.len(),
            forall|k: int| 0 <= k < ls@.len() ==> ls@[k]@ == all[k],
            marker@ == time_marker(),
            i <= ls.len(),
            latency_of_lines(all) == latency_of_lines(all.skip(i as int)),
        decreases ls.len() - i,
    {
        assert(all.skip(i as int).drop_first() =~= all.skip(i + 1));
        assert(all.skip(i as int)[0] == all[i as int]);
        assert(ls@[i as int]@ == all[i as int]);
        if find_in(&ls[i], &marker).is_some() {
            return latency_of_line(&ls[i], &marker);
        }
        i = i + 1;
    }
    None
}

/// The latency sample, in microseconds, that a ping run gives.
pub open spec fn ping_latency(ping: PingOutcome) -> Option<u64> {
    if ping.success {
        latency_of_lines(lines(ping.stdout@))
    } else {
        None
    }
}

/// The loss percentage that a ping burst gives.
pub open spec fn ping_loss(ping: PingOutcome) -> Option<Decimal> {
    if ping.success {
        loss_of_lines(lines(ping.stdout@))
    } else {
        None
    }
}

/// The latency sample of one single-packet ping: absent unless it
/// succeeded and its output reports a round-trip time.
pub fn measure_latency(ping: &PingOutcome) -> (r: Option<u64>)
    ensures
        r == ping_latency(*ping),
{
    if ping.success {
        extract_latency_from_ping_output(ping.stdout.as_str())
    } else {
        None
    }
}

fn loss_of_line(line: &Vec<char>, marker: &Vec<char>) -> (r: Option<Decimal>)
    requires
        marker@ == received_marker(),
    ensures
        r == line_loss(line@),
{
    match field_before_in(line, marker, '%') {
        None => None,
        Some(f) => match parse_decimal(&f) {
            None => None,
            Some(d) => if d.at_most(100) {
                Some(d)
            } else {
                None
            },
        },
    }
}

/// The loss percentage that ping's summary reports: the number between
/// `received, ` and `%` on the first line that holds `packet loss`.
pub fn extract_packet_loss_from_ping_output(output: &str) -> (r: Option<Decimal>)
    ensures
        r == loss_of_lines(lines(output@)),
{
    let ls = split_lines(output);
    let ghost all = lines(output@);
    let phrase = vec!['p', 'a', 'c', 'k', 'e', 't', ' ', 'l', 'o', 's', 's'];
    assert(phrase@ =~= loss_phrase());
    let marker = vec!['r', 'e', 'c', 'e', 'i', 'v', 'e', 'd', ',', ' '];
    assert(marker@ =~= received_marker());
    let mut i: usize = 0;
    assert(all.skip(0) =~= all);
    while i < ls.len()
        invariant
            all == lines(output@),
            ls@.len() == all.len(),
            forall|k: int| 0 <= k < ls@.len() ==> ls@[k]@ == all[k],
            phrase@ == loss_phrase(),
            marker@ == received_marker(),
            i <= ls.len(),
            loss_of_lines(all) == loss_of_lines(all.skip(i as int)),
        decreases ls.len() - i,
    {
        assert(all.skip(i as int).drop_first() =~= all.skip(i + 1));
        assert(all.skip(i as int)[0] == all[i as int]);
        assert(ls@[i as int]@ == all[i as int]);
        if find_in(&ls[i], &phrase).is_some() {
            return loss_of_line(&ls[i], &marker);
        }
        i = i + 1;
    }
    None
}

/// The packet loss of one burst of pings, as a percentage: absent unless
/// the burst succeeded and its summary reports the loss.
pub fn measure_packet_loss(ping: &PingOutcome) -> (r: Option<Decimal>)
    ensures
        r == ping_loss(*ping),
{
    if ping.success {
        extract_packet_loss_from_ping_output(ping.stdout.as_str())
    } else {
        None
    }
}

} // verus!
