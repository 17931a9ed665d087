//! What the text that is put together says: that it can be read back.
use vstd::prelude::*;

use crate::analysis::training_row;
use crate::flows;
use crate::flows::render_active_flows;
use crate::flows::Flow;
use crate::packet;
use crate::packet::protocol_name;
use crate::packet::Protocol;
use crate::text;

verus! {

/// The number that a run of decimal digits stands for.
pub open spec fn read(digits: Seq<char>) -> nat
    decreases digits.len(),
{
    if digits.len() == 0 {
        0
    } else {
        (10 * read(digits.drop_last()) + (digits.last() as int - 48)) as nat
    }
}

/// Nothing but decimal digits, and at least one.
pub open spec fn all_digits(digits: Seq<char>) -> bool {
    digits.len() > 0 && forall|i: int|
        0 <= i < digits.len() ==> 48 <= #[trigger] digits[i] as int <= 57
}

/// A number can be read back from its decimal text, which is all digits and
/// does not begin with a zero that could be left out.
pub proof fn law_decimal_reads_back(n: nat)
    ensures
        read(text::decimal(n)) == n,
        all_digits(text::decimal(n)),
        text::decimal(n).len() > 1 ==> text::decimal(n)[0] != '0',
        n > 0 ==> text::decimal(n)[0] != '0',
    decreases n,
{
    let s = text::decimal(n);
    if n < 10 {
        assert(s.drop_last() =~= Seq::empty());
        assert(read(s.drop_last()) == 0);
        assert(s.last() == text::digit(n));
    } else {
        law_decimal_reads_back(n / 10);
        assert(s.drop_last() =~= text::decimal(n / 10));
        assert(s.last() == text::digit(n % 10));
        assert forall|i: int| 0 <= i < s.len() implies 48 <= #[trigger] s[i] as int <= 57 by {
            if i < s.len() - 1 {
                assert(s[i] == text::decimal(n / 10)[i]);
            }
        }
        assert(s[0] == text::decimal(n / 10)[0]);
    }
}

/// Appending a number leaves what was there and adds digits from which the
/// number can be read back.
pub proof fn law_appended_number_reads_back(t: &mut String, n: u64)
    requires
        call_ensures(text::append_decimal, (t, n), ()),
    ensures
        final(t)@.len() > old(t)@.len(),
        final(t)@.take(old(t)@.len() as int) == old(t)@,
        all_digits(final(t)@.skip(old(t)@.len() as int)),
        read(final(t)@.skip(old(t)@.len() as int)) == n,
{
    law_decimal_reads_back(n as nat);
    assert(final(t)@.take(old(t)@.len() as int) =~= old(t)@);
    assert(final(t)@.skip(old(t)@.len() as int) =~= text::decimal(n as nat));
}

/// Nothing joined is nothing, one text joined is itself, and two lists joined
/// one after the other are what each is on its own, with one separator between.
pub proof fn law_joining_adds_up(
    a: Seq<Seq<char>>,
    b: Seq<Seq<char>>,
    one: Seq<char>,
    separator: Seq<char>,
)
    requires
        a.len() > 0,
        b.len() > 0,
    ensures
        text::joined(Seq::empty(), separator) == Seq::<char>::empty(),
        text::joined(seq![one], separator) == one,
        text::joined(a + b, separator) == text::joined(a, separator) + separator + text::joined(
            b,
            separator,
        ),
    decreases b.len(),
{
    let all = a + b;
    assert(all.last() == b.last());
    if b.len() == 1 {
        assert(all.drop_last() =~= a);
        assert(b[0] == b.last());
    } else {
        assert(all.drop_last() =~= a + b.drop_last());
        law_joining_adds_up(a, b.drop_last(), one, separator);
    }
    assert(text::joined(all, separator) =~= text::joined(a, separator) + separator + text::joined(
        b,
        separator,
    ));
}

/// Joining, as the operation does it: one more text comes after a separator,
/// unless it is the first.
pub proof fn law_join_appends(
    parts: &Vec<String>,
    more: &Vec<String>,
    separator: &str,
    short: String,
    long: String,
)
    requires
        call_ensures(text::join, (parts, separator), short),
        call_ensures(text::join, (more, separator), long),
        more@.len() == parts@.len() + 1,
        forall|i: int| 0 <= i < parts@.len() ==> (#[trigger] more@[i])@ == parts@[i]@,
    ensures
        parts@.len() == 0 ==> short@ == Seq::<char>::empty() && long@ == more@[0]@,
        parts@.len() > 0 ==> long@ == short@ + separator@ + more@.last()@,
{
    let a = text::texts(parts@);
    let all = text::texts(more@);
    assert(all.drop_last() =~= a);
    assert(all.last() == more@.last()@);
}

/// A training row is its features and its label with commas between: taking
/// the label and its comma away leaves the features, and the label can be read
/// back.
pub proof fn law_training_row(features: &Vec<String>, label: u8, joined: String, row: String)
    requires
        call_ensures(training_row, (features, label), row),
        call_ensures(text::join, (features, ","), joined),
    ensures
        row@.len() > joined@.len() + 1,
        row@.take(joined@.len() as int) == joined@,
        row@[joined@.len() as int] == ',',
        all_digits(row@.skip(joined@.len() as int + 1)),
        read(row@.skip(joined@.len() as int + 1)) == label,
{
    reveal_strlit(",");
    law_decimal_reads_back(label as nat);
    assert(row@.take(joined@.len() as int) =~= joined@);
    assert(row@.skip(joined@.len() as int + 1) =~= text::decimal(label as nat));
}

/// The protocols have the numbers 6, 17 and 1, and 0 for all others; a number
/// is shown as the protocol that has it, and any other as `OTHER`.
pub proof fn law_protocols_by_number(
    protocol: Protocol,
    number: u8,
    shown: u8,
    name: &'static str,
    other_name: &'static str,
)
    requires
        call_ensures(Protocol::number, (protocol,), number),
        call_ensures(protocol_name, (number,), name),
        call_ensures(protocol_name, (shown,), other_name),
    ensures
        protocol == Protocol::Tcp <==> number == 6,
        protocol == Protocol::Udp <==> number == 17,
        protocol == Protocol::Icmp <==> number == 1,
        protocol == Protocol::Other <==> number == 0,
        name@ == (match protocol {
            Protocol::Tcp => "TCP"@,
            Protocol::Udp => "UDP"@,
            Protocol::Icmp => "ICMP"@,
            Protocol::Other => "OTHER"@,
        }),
        shown != 6 && shown != 17 && shown != 1 ==> other_name@ == "OTHER"@,
{
}

/// Where in a line the port begins.
pub open spec fn port_at(ip: Seq<char>) -> int {
    23 + ip.len() as int
}

/// The line of a flow shows its address after twelve characters, then, eleven
/// characters on, its port in decimal; it ends in its rate, whose digits,
/// without the point before the last of them, are the packets of ten seconds;
/// and the rest says what is what.
pub proof fn law_line_reads_back(ip: Seq<char>, flow: Flow, count: nat)
    ensures
        ({
            let line = flows::flow_line(ip, flow, count);
            let after = port_at(ip) + text::decimal(flow.port as nat).len();
            let rate = after + 12 + packet::name_of(flow.protocol).len() + 11;
            &&& line.subrange(0, 12) == "    {\"ip\": \""@
            &&& line.subrange(12, 12 + ip.len() as int) == ip
            &&& line.subrange(12 + ip.len() as int, port_at(ip)) == "\", \"port\": "@
            &&& all_digits(line.subrange(port_at(ip), after))
            &&& read(line.subrange(port_at(ip), after)) == flow.port
            &&& line.subrange(after, after + 12) == ", \"proto\": \""@
            &&& line.subrange(after + 12, rate - 11) == packet::name_of(flow.protocol)
            &&& line.subrange(rate - 11, rate) == "\", \"rate\": "@
            &&& rate < line.len() - 3
            &&& all_digits(line.subrange(rate, line.len() - 3))
            &&& line[line.len() - 3] == '.'
            &&& 48 <= line[line.len() - 2] as int <= 57
            &&& line.last() == '}'
            &&& 10 * read(line.subrange(rate, line.len() - 3)) + (line[line.len() - 2] as int - 48)
                == count
        }),
{
    reveal_strlit("    {\"ip\": \"");
    reveal_strlit("\", \"port\": ");
    reveal_strlit(", \"proto\": \"");
    reveal_strlit("\", \"rate\": ");
    reveal_strlit(".");
    reveal_strlit("}");
    let line = flows::flow_line(ip, flow, count);
    let port = text::decimal(flow.port as nat);
    let name = packet::name_of(flow.protocol);
    let whole = text::decimal(count / 10);
    let after = port_at(ip) + port.len();
    let rate = after + 12 + name.len() + 11;
    law_decimal_reads_back(flow.port as nat);
    law_decimal_reads_back(count / 10);
    assert(text::decimal(count % 10).len() == 1);
    assert("    {\"ip\": \""@.len() == 12);
    assert("\", \"port\": "@.len() == 11);
    assert(", \"proto\": \""@.len() == 12);
    assert("\", \"rate\": "@.len() == 11);
    assert(line.len() == rate + whole.len() + 3);
    assert(line.subrange(0, 12) =~= "    {\"ip\": \""@);
    assert(line.subrange(12, 12 + ip.len() as int) =~= ip);
    assert(line.subrange(12 + ip.len() as int, port_at(ip)) =~= "\", \"port\": "@);
    assert(line.subrange(port_at(ip), after) =~= port);
    assert(line.subrange(after, after + 12) =~= ", \"proto\": \""@);
    assert(line.subrange(after + 12, rate - 11) =~= name);
    assert(line.subrange(rate - 11, rate) =~= "\", \"rate\": "@);
    assert(line.subrange(rate, line.len() - 3) =~= whole);
    assert(line[line.len() - 2] == text::decimal(count % 10)[0]);
}

/// A listing of no flows is its time in a frame.
pub proof fn law_empty_listing(
    timestamp: &str,
    ips: &Vec<String>,
    listed: &Vec<(Flow, u32)>,
    json: String,
)
    requires
        ips@.len() == 0,
        listed@.len() == 0,
        call_ensures(render_active_flows, (timestamp, ips, listed), json),
    ensures
        json@ == "{\n  \"timestamp\": "@ + timestamp@ + ",\n  \"active_ips\": [\n"@
            + "\n  ]\n}"@,
{
    assert(flows::flow_lines(text::texts(ips@), listed@) =~= Seq::empty());
    assert(json@ =~= "{\n  \"timestamp\": "@ + timestamp@ + ",\n  \"active_ips\": [\n"@
        + "\n  ]\n}"@);
}

/// One more flow puts its line before the end of a listing, after a comma if it
/// is not the first, and changes nothing else.
pub proof fn law_listing_grows_by_a_line(
    timestamp: &str,
    ips: &Vec<String>,
    listed: &Vec<(Flow, u32)>,
    more_ips: &Vec<String>,
    more: &Vec<(Flow, u32)>,
    short: String,
    long: String,
)
    requires
        ips@.len() == listed@.len(),
        more_ips@.len() == more@.len(),
        more@.len() == listed@.len() + 1,
        more@.drop_last() == listed@,
        forall|i: int| 0 <= i < ips@.len() ==> (#[trigger] more_ips@[i])@ == ips@[i]@,
        call_ensures(render_active_flows, (timestamp, ips, listed), short),
        call_ensures(render_active_flows, (timestamp, more_ips, more), long),
    ensures
        short@.len() >= 6,
        short@.skip(short@.len() - 6) == "\n  ]\n}"@,
        listed@.len() == 0 ==> long@ == short@.take(short@.len() - 6) + flows::flow_line(
            more_ips@.last()@,
            more@.last().0,
            more@.last().1 as nat,
        ) + "\n  ]\n}"@,
        listed@.len() > 0 ==> long@ == short@.take(short@.len() - 6) + ",\n"@ + flows::flow_line(
            more_ips@.last()@,
            more@.last().0,
            more@.last().1 as nat,
        ) + "\n  ]\n}"@,
{
    reveal_strlit("\n  ]\n}");
    let tail = "\n  ]\n}"@;
    assert(tail.len() == 6);
    let head = "{\n  \"timestamp\": "@ + timestamp@ + ",\n  \"active_ips\": [\n"@;
    let a = flows::flow_lines(text::texts(ips@), listed@);
    let b = flows::flow_lines(text::texts(more_ips@), more@);
    let line = flows::flow_line(more_ips@.last()@, more@.last().0, more@.last().1 as nat);
    assert forall|i: int| 0 <= i < a.len() implies a[i] == b[i] by {
        assert(more@.drop_last()[i] == listed@[i]);
        assert(more_ips@[i]@ == ips@[i]@);
    }
    assert(b.drop_last() =~= a);
    assert(b.last() == line);
    let body = text::joined(a, ",\n"@);
    assert(short@ =~= head + body + tail);
    assert(short@.take(short@.len() - 6) =~= head + body);
    assert(short@.skip(short@.len() - 6) =~= tail);
    if listed@.len() == 0 {
        assert(body =~= Seq::empty());
        assert(b[0] == line);
        assert(long@ =~= head + body + line + tail);
    } else {
        assert(text::joined(b, ",\n"@) == body + ",\n"@ + line);
        assert(long@ =~= head + body + ",\n"@ + line + tail);
    }
}

} // verus!
