//! Flow records and their decoding from the flow decoder's JSON output.

use vstd::prelude::*;
use crate::text::texts_of;

verus! {

/// One flow between two IPv4 addresses, as the decoder reports it.
#[derive(Debug)]
pub struct NetflowV4 {
    pub first: String,
    pub last: String,
    pub in_packets: u32,
    pub in_bytes: u64,
    pub src4_addr: String,
    pub dst4_addr: String,
}

/// One flow between two IPv6 addresses, as the decoder reports it.
#[derive(Debug)]
pub struct NetflowV6 {
    pub first: String,
    pub last: String,
    pub in_packets: u32,
    pub in_bytes: u64,
    pub src6_addr: String,
    pub dst6_addr: String,
}

/// Mathematical value of a flow record of either address family.
pub struct FlowRecord {
    pub first: Seq<char>,
    pub last: Seq<char>,
    pub in_packets: int,
    pub in_bytes: int,
    pub src_addr: Seq<char>,
    pub dst_addr: Seq<char>,
}

impl View for NetflowV4 {
    type V = FlowRecord;

    open spec fn view(&self) -> FlowRecord {
        FlowRecord {
            first: self.first@,
            last: self.last@,
            in_packets: self.in_packets as int,
            in_bytes: self.in_bytes as int,
            src_addr: self.src4_addr@,
            dst_addr: self.dst4_addr@,
        }
    }
}

impl View for NetflowV6 {
    type V = FlowRecord;

    open spec fn view(&self) -> FlowRecord {
        FlowRecord {
            first: self.first@,
            last: self.last@,
            in_packets: self.in_packets as int,
            in_bytes: self.in_bytes as int,
            src_addr: self.src6_addr@,
            dst_addr: self.dst6_addr@,
        }
    }
}

impl Clone for NetflowV4 {
    fn clone(&self) -> (r: NetflowV4)
        ensures
            r@ == self@,
    {
        NetflowV4 {
            first: self.first.clone(),
            last: self.last.clone(),
            in_packets: self.in_packets,
            in_bytes: self.in_bytes,
            src4_addr: self.src4_addr.clone(),
            dst4_addr: self.dst4_addr.clone(),
        }
    }
}

impl Clone for NetflowV6 {
    fn clone(&self) -> (r: NetflowV6)
        ensures
            r@ == self@,
    {
        NetflowV6 {
            first: self.first.clone(),
            last: self.last.clone(),
            in_packets: self.in_packets,
            in_bytes: self.in_bytes,
            src6_addr: self.src6_addr.clone(),
            dst6_addr: self.dst6_addr.clone(),
        }
    }
}

/// What a JSON object holds under one name, as far as flow records use it.
#[derive(Debug)]
pub enum Member {
    /// `null`, or no member of that name.
    Null,
    /// A number, with its value where that is a non-negative integer below
    /// 2^64.
    Number(Option<u64>),
    /// A string.
    Text(String),
    /// A boolean, an array or an object.
    Other,
}

/// Mathematical value of a `Member`.
pub enum MemberModel {
    Null,
    Number(Option<u64>),
    Text(Seq<char>),
    Other,
}

impl View for Member {
    type V = MemberModel;

    open spec fn view(&self) -> MemberModel {
        match self {
            Member::Null => MemberModel::Null,
            Member::Number(n) => MemberModel::Number(*n),
            Member::Text(s) => MemberModel::Text(s@),
            Member::Other => MemberModel::Other,
        }
    }
}

/// The members that the elements of the JSON array written by `text` hold
/// under each of `names`: one row for each element, in the array's order, and
/// in each row one member for each name, in the order of `names`. `None`
/// where `serde_json::from_str` does not read `text` as an array of values.
pub uninterp spec fn json_table(text: Seq<char>, names: Seq<Seq<char>>) -> Option<
    Seq<Seq<MemberModel>>,
>;

/// The values of a row of members.
pub open spec fn row_view(row: Seq<Member>) -> Seq<MemberModel> {
    row.map_values(|member: Member| member@)
}

/// The values of a run of rows of members.
pub open spec fn table_view(rows: Seq<Vec<Member>>) -> Seq<Seq<MemberModel>> {
    rows.map_values(|row: Vec<Member>| row_view(row@))
}

/// Reads `text` with `serde_json::from_str` as a vector of
/// `serde_json::Value` and looks each of `names` up in each element with
/// `Value`'s index operator, which gives `Value::Null` where the element is
/// no object or has no such member. Numbers are handed on through
/// `Number::as_u64`. The outcome depends on `text` and `names` alone.
#[verifier::external_body]
fn read_members(text: &str, names: &Vec<String>) -> (r: Option<Vec<Vec<Member>>>)
    ensures
        match r {
            Some(rows) => json_table(text@, texts_of(names@)) == Some(table_view(rows@)),
            None => json_table(text@, texts_of(names@)) is None,
        },
{
    let values: Vec<serde_json::Value> = serde_json::from_str(text).ok()?;
    let member = |value: &serde_json::Value, name: &String| match &value[name.as_str()] {
        serde_json::Value::Null => Member::Null,
        serde_json::Value::Number(number) => Member::Number(number.as_u64()),
        serde_json::Value::String(text) => Member::Text(text.clone()),
        _ => Member::Other,
    };
    let row = |value: &serde_json::Value| -> Vec<Member> {
        names.iter().map(|name| member(value, name)).collect()
    };
    Some(values.iter().map(row).collect())
}

/// The names of the members that a flow record is decoded from, in the order
/// in which `decode` expects them.
pub open spec fn member_names() -> Seq<Seq<char>> {
    seq![
        "in_packets"@,
        "in_bytes"@,
        "src6_addr"@,
        "dst6_addr"@,
        "first"@,
        "last"@,
        "src4_addr"@,
        "dst4_addr"@,
    ]
}

/// The names of `member_names` as strings.
fn names_of_members() -> (names: Vec<String>)
    ensures
        texts_of(names@) == member_names(),
{
    let mut names: Vec<String> = Vec::new();
    names.push(String::from_str("in_packets"));
    names.push(String::from_str("in_bytes"));
    names.push(String::from_str("src6_addr"));
    names.push(String::from_str("dst6_addr"));
    names.push(String::from_str("first"));
    names.push(String::from_str("last"));
    names.push(String::from_str("src4_addr"));
    names.push(String::from_str("dst4_addr"));
    assert(texts_of(names@) =~= member_names());
    names
}

/// What one element of the decoder's output turns out to be.
#[derive(Debug)]
pub enum Decoded {
    V4(NetflowV4),
    V6(NetflowV6),
    /// A member is missing or of the wrong kind, or the packet count does not
    /// fit 32 bits.
    Malformed,
}

/// Mathematical value of a `Decoded`.
pub enum DecodedModel {
    V4(FlowRecord),
    V6(FlowRecord),
    Malformed,
}

impl View for Decoded {
    type V = DecodedModel;

    open spec fn view(&self) -> DecodedModel {
        match self {
            Decoded::V4(flow) => DecodedModel::V4(flow@),
            Decoded::V6(flow) => DecodedModel::V6(flow@),
            Decoded::Malformed => DecodedModel::Malformed,
        }
    }
}

/// The record that a row of members, taken in the order of `member_names`,
/// stands for. A row with both IPv6 addresses null is an IPv4 flow; any other
/// is an IPv6 flow.
pub open spec fn decode(row: Seq<MemberModel>) -> DecodedModel {
    if row.len() != 8 {
        DecodedModel::Malformed
    } else {
        match (row[0], row[1], row[4], row[5]) {
            (
                MemberModel::Number(Some(packets)),
                MemberModel::Number(Some(bytes)),
                MemberModel::Text(first),
                MemberModel::Text(last),
            ) if packets <= u32::MAX => {
                match (row[2], row[3], row[6], row[7]) {
                    (
                        MemberModel::Null,
                        MemberModel::Null,
                        MemberModel::Text(src),
                        MemberModel::Text(dst),
                    ) => DecodedModel::V4(
                        FlowRecord {
                            first,
                            last,
                            in_packets: packets as int,
                            in_bytes: bytes as int,
                            src_addr: src,
                            dst_addr: dst,
                        },
                    ),
                    (MemberModel::Null, MemberModel::Null, _, _) => DecodedModel::Malformed,
                    (MemberModel::Text(src), MemberModel::Text(dst), _, _) => DecodedModel::V6(
                        FlowRecord {
                            first,
                            last,
                            in_packets: packets as int,
                            in_bytes: bytes as int,
                            src_addr: src,
                            dst_addr: dst,
                        },
                    ),
                    _ => DecodedModel::Malformed,
                }
            },
            _ => DecodedModel::Malformed,
        }
    }
}

/// The text of a member that is a string.
fn text_of(member: &Member) -> (r: Option<String>)
    ensures
        match r {
            Some(text) => member@ == MemberModel::Text(text@),
            None => !(member@ is Text),
        },
{
    match member {
        Member::Text(text) => Some(text.clone()),
        _ => None,
    }
}

/// Whether the member is null or missing.
fn is_null(member: &Member) -> (r: bool)
    ensures
        r == (member@ is Null),
{
    match member {
        Member::Null => true,
        _ => false,
    }
}

/// The value of a member that is a whole number from zero to `limit`.
fn count_of(member: &Member, limit: u64) -> (r: Option<u64>)
    ensures
        r == match member@ {
            MemberModel::Number(Some(n)) if n <= limit => Some(n),
            _ => None,
        },
{
    match member {
        Member::Number(Some(n)) => if *n <= limit {
            Some(*n)
        } else {
            None
        },
        _ => None,
    }
}

/// Decodes one row of members.
pub fn decode_row(row: &Vec<Member>) -> (r: Decoded)
    ensures
        r@ == decode(row_view(row@)),
{
    if row.len() != 8 {
        return Decoded::Malformed;
    }
    let ghost model = row_view(row@);
    assert(forall|i: int| 0 <= i < 8 ==> model[i] == row@[i]@);
    let packets = count_of(&row[0], 0xffff_ffff);
    let bytes = count_of(&row[1], 0xffff_ffff_ffff_ffff);
    let first = text_of(&row[4]);
    let last = text_of(&row[5]);
    match (packets, bytes, first, last) {
        (Some(packets), Some(bytes), Some(first), Some(last)) => {
            if is_null(&row[2]) && is_null(&row[3]) {
                match (text_of(&row[6]), text_of(&row[7])) {
                    (Some(src), Some(dst)) => Decoded::V4(
                        NetflowV4 {
                            first,
                            last,
                            in_packets: packets as u32,
                            in_bytes: bytes,
                            src4_addr: src,
                            dst4_addr: dst,
                        },
                    ),
                    _ => Decoded::Malformed,
                }
            } else {
                match (text_of(&row[2]), text_of(&row[3])) {
                    (Some(src), Some(dst)) => Decoded::V6(
                        NetflowV6 {
                            first,
                            last,
                            in_packets: packets as u32,
                            in_bytes: bytes,
                            src6_addr: src,
                            dst6_addr: dst,
                        },
                    ),
                    _ => Decoded::Malformed,
                }
            }
        },
        _ => Decoded::Malformed,
    }
}

/// The IPv4 flows among `rows`, in their order.
pub open spec fn v4_flows(rows: Seq<Seq<MemberModel>>) -> Seq<FlowRecord>
    decreases rows.len(),
{
    if rows.len() == 0 {
        Seq::empty()
    } else {
        match decode(rows.last()) {
            DecodedModel::V4(flow) => v4_flows(rows.drop_last()).push(flow),
            _ => v4_flows(rows.drop_last()),
        }
    }
}

/// The IPv4 flows that one output of the decoder holds: none where the output
/// is no JSON array.
pub open spec fn flows_of_output(output: Seq<char>) -> Seq<FlowRecord> {
    match json_table(output, member_names()) {
        Some(rows) => v4_flows(rows),
        None => Seq::empty(),
    }
}

/// The IPv4 flows of a run of outputs, one output after the other.
pub open spec fn flows_of_outputs(outputs: Seq<Seq<char>>) -> Seq<FlowRecord>
    decreases outputs.len(),
{
    if outputs.len() == 0 {
        Seq::empty()
    } else {
        flows_of_outputs(outputs.drop_last()) + flows_of_output(outputs.last())
    }
}

/// The values of a run of flows.
pub open spec fn flows_view(flows: Seq<NetflowV4>) -> Seq<FlowRecord> {
    flows.map_values(|flow: NetflowV4| flow@)
}

/// Decodes the outputs of the flow decoder, one JSON array of flow objects
/// each, into the IPv4 flows they hold. An output that is no JSON array and
/// an element that is no well-formed flow are passed over.
pub fn parse_data(outputs: Vec<String>) -> (flows: Vec<NetflowV4>)
    ensures
        flows_view(flows@) == flows_of_outputs(texts_of(outputs@)),
{
    let names = names_of_members();
    let mut flows: Vec<NetflowV4> = Vec::new();
    let ghost texts = texts_of(outputs@);
    let mut i: usize = 0;
    while i < outputs.len()
        invariant
            i <= outputs.len(),
            texts == texts_of(outputs@),
            texts_of(names@) == member_names(),
            flows_view(flows@) == flows_of_outputs(texts.take(i as int)),
        decreases outputs.len() - i,
    {
        proof {
            assert(texts.take(i + 1).drop_last() == texts.take(i as int));
            assert(texts.take(i + 1).last() == outputs@[i as int]@);
        }
        match read_members(outputs[i].as_str(), &names) {
            Some(rows) => {
                let ghost table = table_view(rows@);
                let ghost before = flows_view(flows@);
                let mut j: usize = 0;
                while j < rows.len()
                    invariant
                        j <= rows.len(),
                        table == table_view(rows@),
                        flows_view(flows@) == before + v4_flows(table.take(j as int)),
                    decreases rows.len() - j,
                {
                    proof {
                        assert(table.take(j + 1).drop_last() == table.take(j as int));
                        assert(table.take(j + 1).last() == row_view(rows@[j as int]@));
                    }
                    match decode_row(&rows[j]) {
                        Decoded::V4(flow) => {
                            let ghost held = flows_view(flows@);
                            flows.push(flow);
                            assert(flows_view(flows@) == held.push(flow@));
                        },
                        _ => {},
                    }
                    j += 1;
                }
                proof {
                    assert(table.take(j as int) == table);
                }
            },
            None => {},
        }
        i += 1;
    }
    proof {
        assert(texts.take(i as int) == texts);
    }
    flows
}

} // verus!
