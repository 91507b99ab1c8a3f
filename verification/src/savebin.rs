//! The compact binary encoding of save records: tagged values with 64-bit
//! little-endian lengths, written and read back by verified code, with the
//! reader proved to invert the writer.

use vstd::prelude::*;

verus! {

/// The eight little-endian bytes of `n`.
pub open spec fn u64_le(n: u64) -> Seq<u8> {
    seq![
        (n & 0xff) as u8,
        ((n >> 8) & 0xff) as u8,
        ((n >> 16) & 0xff) as u8,
        ((n >> 24) & 0xff) as u8,
        ((n >> 32) & 0xff) as u8,
        ((n >> 40) & 0xff) as u8,
        ((n >> 48) & 0xff) as u8,
        ((n >> 56) & 0xff) as u8,
    ]
}

/// The value eight little-endian bytes carry.
pub open spec fn u64_from_le(b: Seq<u8>) -> u64
    recommends
        b.len() == 8,
{
    (b[0] as u64) | ((b[1] as u64) << 8) | ((b[2] as u64) << 16) | ((b[3] as u64) << 24) | (
    (b[4] as u64) << 32) | ((b[5] as u64) << 40) | ((b[6] as u64) << 48) | ((b[7] as u64) << 56)
}

/// Reading the eight bytes of `n` yields `n` again.
pub proof fn lemma_u64_le_inverse(n: u64)
    ensures
        u64_from_le(u64_le(n)) == n,
{
    assert((((n & 0xff) as u8) as u64) | (((((n >> 8) & 0xff) as u8) as u64) << 8) | (((((n >> 16)
        & 0xff) as u8) as u64) << 16) | (((((n >> 24) & 0xff) as u8) as u64) << 24) | (((((n >> 32)
        & 0xff) as u8) as u64) << 32) | (((((n >> 40) & 0xff) as u8) as u64) << 40) | (((((n >> 48)
        & 0xff) as u8) as u64) << 48) | (((((n >> 56) & 0xff) as u8) as u64) << 56) == n)
        by (bit_vector);
}

/// Writing the value eight bytes carry yields those bytes again.
pub proof fn lemma_u64_le_of_bytes(b: Seq<u8>)
    requires
        b.len() == 8,
    ensures
        u64_le(u64_from_le(b)) =~= b,
{
    let b0 = b[0];
    let b1 = b[1];
    let b2 = b[2];
    let b3 = b[3];
    let b4 = b[4];
    let b5 = b[5];
    let b6 = b[6];
    let b7 = b[7];
    assert((((b0 as u64) | ((b1 as u64) << 8) | ((b2 as u64) << 16) | ((b3 as u64) << 24) | ((b4 as u64) << 32) | ((b5 as u64) << 40) | ((b6 as u64) << 48) | ((b7 as u64) << 56)) & 0xff) as u8 == b0) by (bit_vector);
    assert(((((b0 as u64) | ((b1 as u64) << 8) | ((b2 as u64) << 16) | ((b3 as u64) << 24) | ((b4 as u64) << 32) | ((b5 as u64) << 40) | ((b6 as u64) << 48) | ((b7 as u64) << 56)) >> 8) & 0xff) as u8 == b1) by (bit_vector);
    assert(((((b0 as u64) | ((b1 as u64) << 8) | ((b2 as u64) << 16) | ((b3 as u64) << 24) | ((b4 as u64) << 32) | ((b5 as u64) << 40) | ((b6 as u64) << 48) | ((b7 as u64) << 56)) >> 16) & 0xff) as u8 == b2) by (bit_vector);
    assert(((((b0 as u64) | ((b1 as u64) << 8) | ((b2 as u64) << 16) | ((b3 as u64) << 24) | ((b4 as u64) << 32) | ((b5 as u64) << 40) | ((b6 as u64) << 48) | ((b7 as u64) << 56)) >> 24) & 0xff) as u8 == b3) by (bit_vector);
    assert(((((b0 as u64) | ((b1 as u64) << 8) | ((b2 as u64) << 16) | ((b3 as u64) << 24) | ((b4 as u64) << 32) | ((b5 as u64) << 40) | ((b6 as u64) << 48) | ((b7 as u64) << 56)) >> 32) & 0xff) as u8 == b4) by (bit_vector);
    assert(((((b0 as u64) | ((b1 as u64) << 8) | ((b2 as u64) << 16) | ((b3 as u64) << 24) | ((b4 as u64) << 32) | ((b5 as u64) << 40) | ((b6 as u64) << 48) | ((b7 as u64) << 56)) >> 40) & 0xff) as u8 == b5) by (bit_vector);
    assert(((((b0 as u64) | ((b1 as u64) << 8) | ((b2 as u64) << 16) | ((b3 as u64) << 24) | ((b4 as u64) << 32) | ((b5 as u64) << 40) | ((b6 as u64) << 48) | ((b7 as u64) << 56)) >> 48) & 0xff) as u8 == b6) by (bit_vector);
    assert(((((b0 as u64) | ((b1 as u64) << 8) | ((b2 as u64) << 16) | ((b3 as u64) << 24) | ((b4 as u64) << 32) | ((b5 as u64) << 40) | ((b6 as u64) << 48) | ((b7 as u64) << 56)) >> 56) & 0xff) as u8 == b7) by (bit_vector);
    assert(u64_from_le(b) == ((b0 as u64) | ((b1 as u64) << 8) | ((b2 as u64) << 16) | ((b3 as u64) << 24) | ((b4 as u64) << 32) | ((b5 as u64) << 40) | ((b6 as u64) << 48) | ((b7 as u64) << 56)));
}

/// Round trip of the signed 64-bit embedding.
pub proof fn lemma_i64_cast_roundtrip(i: i64)
    ensures
        ((i as u64) as i64) == i,
{
    assert(((i as u64) as i64) == i) by (bit_vector);
}

/// Appends the eight little-endian bytes of `n`.
pub fn push_u64_le(out: &mut Vec<u8>, n: u64)
    ensures
        final(out)@ =~= old(out)@ + u64_le(n),
{
    out.push((n & 0xff) as u8);
    out.push(((n >> 8) & 0xff) as u8);
    out.push(((n >> 16) & 0xff) as u8);
    out.push(((n >> 24) & 0xff) as u8);
    out.push(((n >> 32) & 0xff) as u8);
    out.push(((n >> 40) & 0xff) as u8);
    out.push(((n >> 48) & 0xff) as u8);
    out.push(((n >> 56) & 0xff) as u8);
}

/// Appends the four little-endian bytes of `n`.
pub(crate) fn push_u32_le(out: &mut Vec<u8>, n: u32)
    ensures
        final(out)@ =~= old(out)@ + u32_le(n),
{
    out.push((n & 0xff) as u8);
    out.push(((n >> 8) & 0xff) as u8);
    out.push(((n >> 16) & 0xff) as u8);
    out.push(((n >> 24) & 0xff) as u8);
}

/// Reads the eight little-endian bytes at `pos`.
pub fn read_u64_le(b: &[u8], pos: usize) -> (r: u64)
    requires
        pos + 8 <= b@.len(),
    ensures
        r == u64_from_le(b@.subrange(pos as int, pos + 8)),
{
    let r = (b[pos] as u64) | ((b[pos + 1] as u64) << 8u64) | ((b[pos + 2] as u64) << 16u64) | ((b[
        pos + 3] as u64) << 24u64) | ((b[pos + 4] as u64) << 32u64) | ((b[pos + 5] as u64)
        << 40u64) | ((b[pos + 6] as u64) << 48u64) | ((b[pos + 7] as u64) << 56u64);
    proof {
        let s = b@.subrange(pos as int, pos + 8);
        assert(s[0] == b@[pos as int]);
        assert(s[1] == b@[pos + 1]);
        assert(s[2] == b@[pos + 2]);
        assert(s[3] == b@[pos + 3]);
        assert(s[4] == b@[pos + 4]);
        assert(s[5] == b@[pos + 5]);
        assert(s[6] == b@[pos + 6]);
        assert(s[7] == b@[pos + 7]);
    }
    r
}

/// A stored save value: a tagged scalar or composite. Floating-point values
/// are carried as their IEEE-754 bit patterns.
pub enum SaveValue {
    String(String),
    Integer(i64),
    Float(u64),
    Boolean(bool),
    Array(Vec<SaveValue>),
    Object(Vec<(String, SaveValue)>),
}

/// The mathematical shape of a save value.
pub enum SaveNode {
    Text(Seq<char>),
    Int(i64),
    Fl(u64),
    Bool(bool),
    Arr(Seq<SaveNode>),
    Obj(Seq<(Seq<char>, SaveNode)>),
}

/// The model a save value denotes.
pub open spec fn sv_view(v: SaveValue) -> SaveNode
    decreases v,
{
    match v {
        SaveValue::String(s) => SaveNode::Text(s@),
        SaveValue::Integer(i) => SaveNode::Int(i),
        SaveValue::Float(bits) => SaveNode::Fl(bits),
        SaveValue::Boolean(b) => SaveNode::Bool(b),
        SaveValue::Array(items) => SaveNode::Arr(sv_views(items@)),
        SaveValue::Object(entries) => SaveNode::Obj(sv_entry_views(entries@)),
    }
}

/// The models of a sequence of save values.
pub open spec fn sv_views(items: Seq<SaveValue>) -> Seq<SaveNode>
    decreases items,
{
    if items.len() == 0 {
        Seq::empty()
    } else {
        seq![sv_view(items.first())] + sv_views(items.drop_first())
    }
}

/// The models of a sequence of keyed save values.
pub open spec fn sv_entry_views(entries: Seq<(String, SaveValue)>) -> Seq<(Seq<char>, SaveNode)>
    decreases entries,
{
    if entries.len() == 0 {
        Seq::empty()
    } else {
        seq![(entries.first().0@, sv_view(entries.first().1))] + sv_entry_views(
            entries.drop_first(),
        )
    }
}

/// `sv_views` maps the sequence pointwise.
pub proof fn lemma_sv_views_index(items: Seq<SaveValue>)
    ensures
        sv_views(items).len() == items.len(),
        forall|i: int| 0 <= i < items.len() ==> sv_views(items)[i] == sv_view(items[i]),
    decreases items,
{
    if items.len() > 0 {
        lemma_sv_views_index(items.drop_first());
    }
}

/// `sv_entry_views` maps the sequence pointwise.
pub proof fn lemma_sv_entry_views_index(entries: Seq<(String, SaveValue)>)
    ensures
        sv_entry_views(entries).len() == entries.len(),
        forall|i: int|
            0 <= i < entries.len() ==> sv_entry_views(entries)[i] == (
            entries[i].0@,
            sv_view(entries[i].1),
            ),
    decreases entries,
{
    if entries.len() > 0 {
        lemma_sv_entry_views_index(entries.drop_first());
    }
}

/// The encoding of a length-prefixed string.
pub open spec fn key_enc(s: Seq<char>) -> Seq<u8> {
    u64_le(vstd::utf8::encode_utf8(s).len() as u64) + vstd::utf8::encode_utf8(s)
}

/// The encoding of one save value.
pub open spec fn node_enc(n: SaveNode) -> Seq<u8>
    decreases n,
{
    match n {
        SaveNode::Text(s) => seq![0u8] + key_enc(s),
        SaveNode::Int(i) => seq![1u8] + u64_le(i as u64),
        SaveNode::Fl(bits) => seq![2u8] + u64_le(bits),
        SaveNode::Bool(b) => seq![3u8] + seq![(if b { 1u8 } else { 0u8 })],
        SaveNode::Arr(items) => seq![4u8] + u64_le(items.len() as u64) + list_enc(items),
        SaveNode::Obj(entries) => seq![5u8] + u64_le(entries.len() as u64) + obj_enc(entries),
    }
}

/// The concatenated encodings of a sequence of values.
pub open spec fn list_enc(items: Seq<SaveNode>) -> Seq<u8>
    decreases items,
{
    if items.len() == 0 {
        Seq::empty()
    } else {
        node_enc(items.first()) + list_enc(items.drop_first())
    }
}

/// The concatenated encodings of keyed values.
pub open spec fn obj_enc(entries: Seq<(Seq<char>, SaveNode)>) -> Seq<u8>
    decreases entries,
{
    if entries.len() == 0 {
        Seq::empty()
    } else {
        key_enc(entries.first().0) + node_enc(entries.first().1) + obj_enc(entries.drop_first())
    }
}

/// Every length that the encoding embeds fits its 64-bit field.
pub open spec fn node_wf(n: SaveNode) -> bool
    decreases n,
{
    match n {
        SaveNode::Text(s) => vstd::utf8::encode_utf8(s).len() <= u64::MAX,
        SaveNode::Int(_) => true,
        SaveNode::Fl(_) => true,
        SaveNode::Bool(_) => true,
        SaveNode::Arr(items) => items.len() <= u64::MAX && list_wf(items),
        SaveNode::Obj(entries) => entries.len() <= u64::MAX && obj_wf(entries),
    }
}

/// `node_wf` over a sequence of values.
pub open spec fn list_wf(items: Seq<SaveNode>) -> bool
    decreases items,
{
    if items.len() == 0 {
        true
    } else {
        node_wf(items.first()) && list_wf(items.drop_first())
    }
}

/// `node_wf` over keyed values, keys included.
pub open spec fn obj_wf(entries: Seq<(Seq<char>, SaveNode)>) -> bool
    decreases entries,
{
    if entries.len() == 0 {
        true
    } else {
        vstd::utf8::encode_utf8(entries.first().0).len() <= u64::MAX && node_wf(entries.first().1)
            && obj_wf(entries.drop_first())
    }
}

/// Appends the length-prefixed UTF-8 bytes of `s`.
pub(crate) fn push_str_key(out: &mut Vec<u8>, s: &str)
    ensures
        final(out)@ =~= old(out)@ + key_enc(s@),
        vstd::utf8::encode_utf8(s@).len() <= u64::MAX,
{
    let mut bytes = s.as_bytes_vec();
    let n = bytes.len();
    push_u64_le(out, n as u64);
    out.append(&mut bytes);
}

/// Appends the encoding of `v`.
pub fn encode_value(out: &mut Vec<u8>, v: &SaveValue)
    ensures
        final(out)@ =~= old(out)@ + node_enc(sv_view(*v)),
        node_wf(sv_view(*v)),
    decreases *v,
{
    broadcast use vstd::std_specs::vec::axiom_vec_index_decreases;

    match v {
        SaveValue::String(s) => {
            out.push(0u8);
            push_str_key(out, s.as_str());
        },
        SaveValue::Integer(i) => {
            out.push(1u8);
            push_u64_le(out, *i as u64);
        },
        SaveValue::Float(bits) => {
            out.push(2u8);
            push_u64_le(out, *bits);
        },
        SaveValue::Boolean(b) => {
            out.push(3u8);
            out.push(if *b { 1u8 } else { 0u8 });
        },
        SaveValue::Array(items) => {
            out.push(4u8);
            let n = items.len();
            push_u64_le(out, n as u64);
            let ghost nodes = sv_views(items@);
            proof {
                lemma_sv_views_index(items@);
            }
            let ghost base = out@;
            let mut i: usize = 0;
            while i < n
                invariant
                    *v == SaveValue::Array(*items),
                    n == items@.len(),
                    0 <= i <= n,
                    nodes == sv_views(items@),
                    nodes.len() == n,
                    forall|j: int| 0 <= j < n ==> nodes[j] == sv_view(items@[j]),
                    out@ =~= base + list_enc(nodes.take(i as int)),
                    list_wf(nodes.take(i as int)),
                decreases n - i,
            {
                proof {
                    assert(*v == SaveValue::Array(*items));
                    assert(decreases_to!(*v => (*v)->Array_0));
                    assert(decreases_to!(*items => items@));
                    assert(decreases_to!(items@ => items@[i as int]));
                }
                encode_value(out, &items[i]);
                proof {
                    lemma_list_enc_take(nodes, i as int);
                    lemma_list_wf_take(nodes, i as int);
                }
                i = i + 1;
            }
            proof {
                assert(nodes.take(n as int) =~= nodes);
            }
        },
        SaveValue::Object(entries) => {
            out.push(5u8);
            let n = entries.len();
            push_u64_le(out, n as u64);
            let ghost nodes = sv_entry_views(entries@);
            proof {
                lemma_sv_entry_views_index(entries@);
            }
            let ghost base = out@;
            let mut i: usize = 0;
            while i < n
                invariant
                    *v == SaveValue::Object(*entries),
                    n == entries@.len(),
                    0 <= i <= n,
                    nodes == sv_entry_views(entries@),
                    nodes.len() == n,
                    forall|j: int|
                        0 <= j < n ==> nodes[j] == (entries@[j].0@, sv_view(entries@[j].1)),
                    out@ =~= base + obj_enc(nodes.take(i as int)),
                    obj_wf(nodes.take(i as int)),
                decreases n - i,
            {
                push_str_key(out, entries[i].0.as_str());
                proof {
                    assert(*v == SaveValue::Object(*entries));
                    assert(decreases_to!(*v => (*v)->Object_0));
                    assert(decreases_to!(*entries => entries@));
                    assert(decreases_to!(entries@ => entries@[i as int]));
                    assert(decreases_to!(entries@[i as int] => entries@[i as int].1));
                }
                encode_value(out, &entries[i].1);
                proof {
                    lemma_obj_enc_take(nodes, i as int);
                    lemma_obj_wf_take(nodes, i as int);
                }
                i = i + 1;
            }
            proof {
                assert(nodes.take(n as int) =~= nodes);
            }
        },
    }
}

/// Extending a prefix of a list by one item appends that item's encoding.
pub proof fn lemma_list_enc_take(items: Seq<SaveNode>, i: int)
    requires
        0 <= i < items.len(),
    ensures
        list_enc(items.take(i + 1)) =~= list_enc(items.take(i)) + node_enc(items[i]),
    decreases i,
{
    if i == 0 {
        assert(items.take(1).first() == items[0]);
        assert(items.take(1).drop_first() =~= Seq::<SaveNode>::empty());
        assert(items.take(0) =~= Seq::<SaveNode>::empty());
    } else {
        lemma_list_enc_take(items.drop_first(), i - 1);
        assert(items.take(i + 1).first() == items[0]);
        assert(items.take(i + 1).drop_first() =~= items.drop_first().take(i));
        assert(items.take(i).first() == items[0]);
        assert(items.take(i).drop_first() =~= items.drop_first().take(i - 1));
        assert(items.drop_first()[i - 1] == items[i]);
    }
}

/// Extending a well-formed prefix by a well-formed item.
pub proof fn lemma_list_wf_take(items: Seq<SaveNode>, i: int)
    requires
        0 <= i < items.len(),
        list_wf(items.take(i)),
        node_wf(items[i]),
    ensures
        list_wf(items.take(i + 1)),
    decreases i,
{
    if i == 0 {
        assert(items.take(1).first() == items[0]);
        assert(items.take(1).drop_first() =~= Seq::<SaveNode>::empty());
        assert(list_wf(Seq::<SaveNode>::empty()));
        assert(items.take(1).len() == 1);
    } else {
        assert(items.take(i).first() == items[0]);
        assert(items.take(i).drop_first() =~= items.drop_first().take(i - 1));
        lemma_list_wf_take(items.drop_first(), i - 1);
        assert(items.drop_first()[i - 1] == items[i]);
        assert(items.take(i + 1).first() == items[0]);
        assert(items.take(i + 1).drop_first() =~= items.drop_first().take(i));
    }
}

/// Extending a well-formed prefix by a well-formed entry.
pub proof fn lemma_obj_wf_take(entries: Seq<(Seq<char>, SaveNode)>, i: int)
    requires
        0 <= i < entries.len(),
        obj_wf(entries.take(i)),
        vstd::utf8::encode_utf8(entries[i].0).len() <= u64::MAX,
        node_wf(entries[i].1),
    ensures
        obj_wf(entries.take(i + 1)),
    decreases i,
{
    if i == 0 {
        assert(entries.take(1).first() == entries[0]);
        assert(entries.take(1).drop_first() =~= Seq::<(Seq<char>, SaveNode)>::empty());
        assert(obj_wf(Seq::<(Seq<char>, SaveNode)>::empty()));
        assert(entries.take(1).len() == 1);
    } else {
        assert(entries.take(i).first() == entries[0]);
        assert(entries.take(i).drop_first() =~= entries.drop_first().take(i - 1));
        lemma_obj_wf_take(entries.drop_first(), i - 1);
        assert(entries.drop_first()[i - 1] == entries[i]);
        assert(entries.take(i + 1).first() == entries[0]);
        assert(entries.take(i + 1).drop_first() =~= entries.drop_first().take(i));
    }
}

/// Extending a prefix of an object by one entry appends that entry's encoding.
pub proof fn lemma_obj_enc_take(entries: Seq<(Seq<char>, SaveNode)>, i: int)
    requires
        0 <= i < entries.len(),
    ensures
        obj_enc(entries.take(i + 1)) =~= obj_enc(entries.take(i)) + key_enc(entries[i].0)
            + node_enc(entries[i].1),
    decreases i,
{
    if i == 0 {
        assert(entries.take(1).first() == entries[0]);
        assert(entries.take(1).drop_first() =~= Seq::<(Seq<char>, SaveNode)>::empty());
        assert(entries.take(0) =~= Seq::<(Seq<char>, SaveNode)>::empty());
    } else {
        lemma_obj_enc_take(entries.drop_first(), i - 1);
        assert(entries.take(i + 1).first() == entries[0]);
        assert(entries.take(i + 1).drop_first() =~= entries.drop_first().take(i));
        assert(entries.take(i).first() == entries[0]);
        assert(entries.take(i).drop_first() =~= entries.drop_first().take(i - 1));
        assert(entries.drop_first()[i - 1] == entries[i]);
    }
}

// --- the reader, in specification form ----------------------------------
/// Reads one value at `pos`: the value and how many bytes it used.
pub open spec fn sp_value(b: Seq<u8>, pos: int) -> Option<(SaveNode, nat)>
    decreases b.len() - pos, 0nat,
    when 0 <= pos
{
    if pos + 1 > b.len() {
        None
    } else {
        let tag = b[pos];
        if tag == 0 {
            match sp_key(b, pos + 1) {
                None => None,
                Some((s, used)) => Some((SaveNode::Text(s), (1 + used) as nat)),
            }
        } else if tag == 1 {
            if pos + 9 > b.len() {
                None
            } else {
                Some((SaveNode::Int(u64_from_le(b.subrange(pos + 1, pos + 9)) as i64), 9nat))
            }
        } else if tag == 2 {
            if pos + 9 > b.len() {
                None
            } else {
                Some((SaveNode::Fl(u64_from_le(b.subrange(pos + 1, pos + 9))), 9nat))
            }
        } else if tag == 3 {
            if pos + 2 > b.len() || (b[pos + 1] != 0 && b[pos + 1] != 1) {
                None
            } else {
                Some((SaveNode::Bool(b[pos + 1] == 1), 2nat))
            }
        } else if tag == 4 {
            if pos + 9 > b.len() {
                None
            } else {
                let count = u64_from_le(b.subrange(pos + 1, pos + 9)) as int;
                match sp_list(b, pos + 9, count) {
                    None => None,
                    Some((items, used)) => Some((SaveNode::Arr(items), (9 + used) as nat)),
                }
            }
        } else if tag == 5 {
            if pos + 9 > b.len() {
                None
            } else {
                let count = u64_from_le(b.subrange(pos + 1, pos + 9)) as int;
                match sp_obj(b, pos + 9, count) {
                    None => None,
                    Some((entries, used)) => Some((SaveNode::Obj(entries), (9 + used) as nat)),
                }
            }
        } else {
            None
        }
    }
}

/// Reads a length-prefixed UTF-8 string at `pos`.
pub open spec fn sp_key(b: Seq<u8>, pos: int) -> Option<(Seq<char>, nat)> {
    if pos < 0 || pos + 8 > b.len() {
        None
    } else {
        let l = u64_from_le(b.subrange(pos, pos + 8)) as int;
        if pos + 8 + l > b.len() {
            None
        } else {
            let bytes = b.subrange(pos + 8, pos + 8 + l);
            if vstd::utf8::valid_utf8(bytes) {
                Some((vstd::utf8::decode_utf8(bytes), (8 + l) as nat))
            } else {
                None
            }
        }
    }
}

/// Reads `count` consecutive values at `pos`.
pub open spec fn sp_list(b: Seq<u8>, pos: int, count: int) -> Option<(Seq<SaveNode>, nat)>
    decreases b.len() - pos, count,
    when 0 <= pos
{
    if count <= 0 {
        Some((Seq::empty(), 0nat))
    } else if count > b.len() - pos {
        None
    } else {
        match sp_value(b, pos) {
            None => None,
            Some((n, used)) => {
                if used == 0 || used > b.len() - pos {
                    None
                } else {
                    match sp_list(b, pos + used, count - 1) {
                        None => None,
                        Some((rest, rest_used)) => Some(
                            (seq![n] + rest, (used + rest_used) as nat),
                        ),
                    }
                }
            },
        }
    }
}

/// Reads `count` consecutive keyed values at `pos`.
pub open spec fn sp_obj(b: Seq<u8>, pos: int, count: int) -> Option<
    (Seq<(Seq<char>, SaveNode)>, nat),
>
    decreases b.len() - pos, count,
    when 0 <= pos
{
    if count <= 0 {
        Some((Seq::empty(), 0nat))
    } else if count > b.len() - pos {
        None
    } else {
        match sp_key(b, pos) {
            None => None,
            Some((k, kused)) => {
                match sp_value(b, pos + kused) {
                    None => None,
                    Some((n, vused)) => {
                        if kused + vused == 0 || kused + vused > b.len() - pos {
                            None
                        } else {
                        match sp_obj(b, pos + kused + vused, count - 1) {
                            None => None,
                            Some((rest, rest_used)) => Some(
                                (seq![(k, n)] + rest, (kused + vused + rest_used) as nat),
                            ),
                        }
                        }
                    },
                }
            },
        }
    }
}

// --- the reader inverts the writer --------------------------------------
/// Every encoding starts with a tag byte.
pub proof fn lemma_node_enc_len(n: SaveNode)
    ensures
        node_enc(n).len() >= 1,
{
}

/// A list encoding is at least one byte per item.
pub proof fn lemma_list_enc_len(items: Seq<SaveNode>)
    ensures
        list_enc(items).len() >= items.len(),
    decreases items,
{
    if items.len() > 0 {
        lemma_node_enc_len(items.first());
        lemma_list_enc_len(items.drop_first());
    }
}

/// An object encoding is at least one byte per entry.
pub proof fn lemma_obj_enc_len(entries: Seq<(Seq<char>, SaveNode)>)
    ensures
        obj_enc(entries).len() >= entries.len(),
    decreases entries,
{
    if entries.len() > 0 {
        lemma_node_enc_len(entries.first().1);
        lemma_obj_enc_len(entries.drop_first());
    }
}

/// Reading a key off an encoded key yields the string back.
pub proof fn lemma_sp_key_enc(s: Seq<char>, b: Seq<u8>, pos: int)
    requires
        vstd::utf8::encode_utf8(s).len() <= u64::MAX,
        0 <= pos,
        pos + key_enc(s).len() <= b.len(),
        b.subrange(pos, pos + key_enc(s).len()) =~= key_enc(s),
    ensures
        sp_key(b, pos) == Some((s, key_enc(s).len() as nat)),
{
    let eb = vstd::utf8::encode_utf8(s);
    let el = eb.len() as int;
    let ke = key_enc(s);
    assert(ke.len() == 8 + el);
    assert(b.subrange(pos, pos + 8) =~= u64_le(el as u64)) by {
        assert forall|k: int| 0 <= k < 8 implies #[trigger] b.subrange(pos, pos + 8)[k] == u64_le(
            el as u64,
        )[k] by {
            assert(b.subrange(pos, pos + ke.len())[k] == ke[k]);
        }
    }
    lemma_u64_le_inverse(el as u64);
    assert(u64_from_le(b.subrange(pos, pos + 8)) == el as u64);
    assert(b.subrange(pos + 8, pos + 8 + el) =~= eb) by {
        assert forall|k: int| 0 <= k < el implies #[trigger] b.subrange(pos + 8, pos + 8 + el)[k] == eb[k] by {
            assert(b.subrange(pos, pos + ke.len())[8 + k] == ke[8 + k]);
            assert(ke[8 + k] == eb[k]);
        }
    }
    vstd::utf8::encode_utf8_valid_utf8(s);
    vstd::utf8::encode_utf8_decode_utf8(s);
}

/// Reading a value off its own encoding yields the value back.
pub proof fn lemma_sp_value_enc(n: SaveNode, b: Seq<u8>, pos: int)
    requires
        node_wf(n),
        0 <= pos,
        pos + node_enc(n).len() <= b.len(),
        b.subrange(pos, pos + node_enc(n).len()) =~= node_enc(n),
    ensures
        sp_value(b, pos) == Some((n, node_enc(n).len() as nat)),
    decreases n,
{
    let ne = node_enc(n);
    assert(b[pos] == ne[0]) by {
        assert(b.subrange(pos, pos + ne.len())[0] == ne[0]);
    }
    match n {
        SaveNode::Text(s) => {
            assert(ne =~= seq![0u8] + key_enc(s));
            assert(b[pos] == 0);
            assert(b.subrange(pos + 1, pos + 1 + key_enc(s).len()) =~= key_enc(s)) by {
                assert forall|k: int|
                    0 <= k < key_enc(s).len() implies #[trigger] b.subrange(
                    pos + 1,
                    pos + 1 + key_enc(s).len(),
                )[k] == key_enc(s)[k] by {
                    assert(b.subrange(pos, pos + ne.len())[1 + k] == ne[1 + k]);
                }
            }
            lemma_sp_key_enc(s, b, pos + 1);
        },
        SaveNode::Int(i) => {
            assert(ne =~= seq![1u8] + u64_le(i as u64));
            assert(b.subrange(pos + 1, pos + 9) =~= u64_le(i as u64)) by {
                assert forall|k: int| 0 <= k < 8 implies #[trigger] b.subrange(pos + 1, pos + 9)[k] == u64_le(
                    i as u64,
                )[k] by {
                    assert(b.subrange(pos, pos + ne.len())[1 + k] == ne[1 + k]);
                }
            }
            lemma_u64_le_inverse(i as u64);
            lemma_i64_cast_roundtrip(i);
        },
        SaveNode::Fl(bits) => {
            assert(ne =~= seq![2u8] + u64_le(bits));
            assert(b.subrange(pos + 1, pos + 9) =~= u64_le(bits)) by {
                assert forall|k: int| 0 <= k < 8 implies #[trigger] b.subrange(pos + 1, pos + 9)[k] == u64_le(
                    bits,
                )[k] by {
                    assert(b.subrange(pos, pos + ne.len())[1 + k] == ne[1 + k]);
                }
            }
            lemma_u64_le_inverse(bits);
        },
        SaveNode::Bool(v) => {
            assert(b[pos + 1] == ne[1]) by {
                assert(b.subrange(pos, pos + ne.len())[1] == ne[1]);
            }
        },
        SaveNode::Arr(items) => {
            assert(ne =~= seq![4u8] + u64_le(items.len() as u64) + list_enc(items));
            assert(b.subrange(pos + 1, pos + 9) =~= u64_le(items.len() as u64)) by {
                assert forall|k: int| 0 <= k < 8 implies #[trigger] b.subrange(pos + 1, pos + 9)[k] == u64_le(
                    items.len() as u64,
                )[k] by {
                    assert(b.subrange(pos, pos + ne.len())[1 + k] == ne[1 + k]);
                }
            }
            lemma_u64_le_inverse(items.len() as u64);
            let le = list_enc(items);
            assert(b.subrange(pos + 9, pos + 9 + le.len()) =~= le) by {
                assert forall|k: int|
                    0 <= k < le.len() implies #[trigger] b.subrange(pos + 9, pos + 9 + le.len())[k]
                    == le[k] by {
                    assert(b.subrange(pos, pos + ne.len())[9 + k] == ne[9 + k]);
                }
            }
            assert(decreases_to!(n => n->Arr_0));
            lemma_sp_list_enc(items, b, pos + 9);
            lemma_list_enc_len(items);
        },
        SaveNode::Obj(entries) => {
            assert(ne =~= seq![5u8] + u64_le(entries.len() as u64) + obj_enc(entries));
            assert(b.subrange(pos + 1, pos + 9) =~= u64_le(entries.len() as u64)) by {
                assert forall|k: int| 0 <= k < 8 implies #[trigger] b.subrange(pos + 1, pos + 9)[k] == u64_le(
                    entries.len() as u64,
                )[k] by {
                    assert(b.subrange(pos, pos + ne.len())[1 + k] == ne[1 + k]);
                }
            }
            lemma_u64_le_inverse(entries.len() as u64);
            let oe = obj_enc(entries);
            assert(b.subrange(pos + 9, pos + 9 + oe.len()) =~= oe) by {
                assert forall|k: int|
                    0 <= k < oe.len() implies #[trigger] b.subrange(pos + 9, pos + 9 + oe.len())[k]
                    == oe[k] by {
                    assert(b.subrange(pos, pos + ne.len())[9 + k] == ne[9 + k]);
                }
            }
            assert(decreases_to!(n => n->Obj_0));
            lemma_sp_obj_enc(entries, b, pos + 9);
            lemma_obj_enc_len(entries);
        },
    }
}

/// Reading a list off its own encoding yields the items back.
pub proof fn lemma_sp_list_enc(items: Seq<SaveNode>, b: Seq<u8>, pos: int)
    requires
        list_wf(items),
        items.len() <= u64::MAX,
        0 <= pos,
        pos + list_enc(items).len() <= b.len(),
        b.subrange(pos, pos + list_enc(items).len()) =~= list_enc(items),
    ensures
        sp_list(b, pos, items.len() as int) == Some((items, list_enc(items).len() as nat)),
    decreases items,
{
    if items.len() == 0 {
    } else {
        let le = list_enc(items);
        let first = items.first();
        let rest = items.drop_first();
        let fe = node_enc(first);
        let re = list_enc(rest);
        assert(le =~= fe + re);
        lemma_list_enc_len(items);
        assert(b.subrange(pos, pos + fe.len()) =~= fe) by {
            assert forall|k: int| 0 <= k < fe.len() implies #[trigger] b.subrange(pos, pos + fe.len())[k]
                == fe[k] by {
                assert(b.subrange(pos, pos + le.len())[k] == le[k]);
            }
        }
        lemma_sp_value_enc(first, b, pos);
        lemma_node_enc_len(first);
        assert(b.subrange(pos + fe.len(), pos + fe.len() + re.len()) =~= re) by {
            assert forall|k: int|
                0 <= k < re.len() implies #[trigger] b.subrange(pos + fe.len(), pos + fe.len() + re.len())[k]
                == re[k] by {
                assert(b.subrange(pos, pos + le.len())[fe.len() + k] == le[fe.len() + k]);
            }
        }
        lemma_sp_list_enc(rest, b, pos + fe.len());
        lemma_list_enc_len(rest);
        assert(seq![first] + rest =~= items);
    }
}

/// Reading an object off its own encoding yields the entries back.
pub proof fn lemma_sp_obj_enc(entries: Seq<(Seq<char>, SaveNode)>, b: Seq<u8>, pos: int)
    requires
        obj_wf(entries),
        entries.len() <= u64::MAX,
        0 <= pos,
        pos + obj_enc(entries).len() <= b.len(),
        b.subrange(pos, pos + obj_enc(entries).len()) =~= obj_enc(entries),
    ensures
        sp_obj(b, pos, entries.len() as int) == Some((entries, obj_enc(entries).len() as nat)),
    decreases entries,
{
    if entries.len() == 0 {
    } else {
        let oe = obj_enc(entries);
        let first = entries.first();
        let rest = entries.drop_first();
        let ke = key_enc(first.0);
        let fe = node_enc(first.1);
        let re = obj_enc(rest);
        assert(oe =~= ke + fe + re);
        lemma_obj_enc_len(entries);
        assert(b.subrange(pos, pos + ke.len()) =~= ke) by {
            assert forall|k: int| 0 <= k < ke.len() implies #[trigger] b.subrange(pos, pos + ke.len())[k]
                == ke[k] by {
                assert(b.subrange(pos, pos + oe.len())[k] == oe[k]);
            }
        }
        lemma_sp_key_enc(first.0, b, pos);
        assert(b.subrange(pos + ke.len(), pos + ke.len() + fe.len()) =~= fe) by {
            assert forall|k: int|
                0 <= k < fe.len() implies #[trigger] b.subrange(pos + ke.len(), pos + ke.len() + fe.len())[k]
                == fe[k] by {
                assert(b.subrange(pos, pos + oe.len())[ke.len() + k] == oe[ke.len() + k]);
            }
        }
        assert(decreases_to!(entries => first));
        lemma_sp_value_enc(first.1, b, pos + ke.len());
        lemma_node_enc_len(first.1);
        let mid = pos + ke.len() + fe.len();
        assert(b.subrange(mid, mid + re.len()) =~= re) by {
            assert forall|k: int| 0 <= k < re.len() implies #[trigger] b.subrange(mid, mid + re.len())[k]
                == re[k] by {
                assert(b.subrange(pos, pos + oe.len())[ke.len() + fe.len() + k] == oe[ke.len()
                    + fe.len() + k]);
            }
        }
        lemma_sp_obj_enc(rest, b, mid);
        lemma_obj_enc_len(rest);
        assert(seq![first] + rest =~= entries);
    }
}

/// A successful read consumes at least one and at most the remaining bytes.
pub proof fn lemma_sp_value_bounds(b: Seq<u8>, pos: int)
    requires
        0 <= pos,
    ensures
        sp_value(b, pos) matches Some(p) ==> 1 <= p.1 <= b.len() - pos,
    decreases b.len() - pos, 0nat,
{
    if pos + 1 > b.len() {
    } else {
        let tag = b[pos];
        if tag == 4 && pos + 9 <= b.len() {
            let count = u64_from_le(b.subrange(pos + 1, pos + 9)) as int;
            lemma_sp_list_bounds(b, pos + 9, count);
        }
        if tag == 5 && pos + 9 <= b.len() {
            let count = u64_from_le(b.subrange(pos + 1, pos + 9)) as int;
            lemma_sp_obj_bounds(b, pos + 9, count);
        }
    }
}

/// A successful list read stays within the remaining bytes and yields
/// exactly `count` items.
pub proof fn lemma_sp_list_bounds(b: Seq<u8>, pos: int, count: int)
    requires
        0 <= pos <= b.len(),
    ensures
        sp_list(b, pos, count) matches Some(p) ==> p.1 <= b.len() - pos && p.0.len() == (if count
            >= 0 {
            count
        } else {
            0
        }),
    decreases b.len() - pos, count,
{
    if count <= 0 || count > b.len() - pos {
    } else {
        lemma_sp_value_bounds(b, pos);
        match sp_value(b, pos) {
            None => {},
            Some((n, used)) => {
                if 0 < used <= b.len() - pos {
                    lemma_sp_list_bounds(b, pos + used, count - 1);
                }
            },
        }
    }
}

/// A successful object read stays within the remaining bytes and yields
/// exactly `count` entries.
pub proof fn lemma_sp_obj_bounds(b: Seq<u8>, pos: int, count: int)
    requires
        0 <= pos <= b.len(),
    ensures
        sp_obj(b, pos, count) matches Some(p) ==> p.1 <= b.len() - pos && p.0.len() == (if count
            >= 0 {
            count
        } else {
            0
        }),
    decreases b.len() - pos, count,
{
    if count <= 0 || count > b.len() - pos {
    } else {
        match sp_key(b, pos) {
            None => {},
            Some((k, kused)) => {
                lemma_sp_value_bounds(b, pos + kused);
                match sp_value(b, pos + kused) {
                    None => {},
                    Some((n, vused)) => {
                        if 0 < kused + vused <= b.len() - pos {
                            lemma_sp_obj_bounds(b, pos + kused + vused, count - 1);
                        }
                    },
                }
            },
        }
    }
}

/// Appending a value extends the pointwise model.
pub proof fn lemma_sv_views_push(items: Seq<SaveValue>, v: SaveValue)
    ensures
        sv_views(items.push(v)) =~= sv_views(items) + seq![sv_view(v)],
{
    lemma_sv_views_index(items.push(v));
    lemma_sv_views_index(items);
    assert forall|i: int|
        0 <= i < items.len() + 1 implies #[trigger] sv_views(items.push(v))[i] == (sv_views(items)
        + seq![sv_view(v)])[i] by {
        if i < items.len() {
            assert(items.push(v)[i] == items[i]);
        } else {
            assert(items.push(v)[i] == v);
        }
    }
}

/// Appending an entry extends the pointwise model.
pub proof fn lemma_sv_entry_views_push(entries: Seq<(String, SaveValue)>, e: (String, SaveValue))
    ensures
        sv_entry_views(entries.push(e)) =~= sv_entry_views(entries) + seq![(e.0@, sv_view(e.1))],
{
    lemma_sv_entry_views_index(entries.push(e));
    lemma_sv_entry_views_index(entries);
    assert forall|i: int|
        0 <= i < entries.len() + 1 implies #[trigger] sv_entry_views(entries.push(e))[i] == (
        sv_entry_views(entries) + seq![(e.0@, sv_view(e.1))])[i] by {
        if i < entries.len() {
            assert(entries.push(e)[i] == entries[i]);
        } else {
            assert(entries.push(e)[i] == e);
        }
    }
}

/// Reads a length-prefixed UTF-8 string at `pos`.
fn parse_key(b: &[u8], pos: usize) -> (r: Option<(String, usize)>)
    ensures
        match sp_key(b@, pos as int) {
            None => r is None,
            Some(p) => r matches Some(q) && q.0@ == p.0 && q.1 == pos + p.1,
        },
{
    if pos > b.len() || b.len() - pos < 8 {
        return None;
    }
    let l64 = read_u64_le(b, pos);
    if l64 > (b.len() - pos - 8) as u64 {
        return None;
    }
    let l = l64 as usize;
    let bytes = vstd::slice::slice_to_vec(&b[pos + 8..pos + 8 + l]);
    match crate::strutil::utf8_bytes_to_string(bytes) {
        Some(st) => {
            proof {
                vstd::utf8::encode_utf8_decode_utf8(st@);
            }
            Some((st, pos + 8 + l))
        },
        None => None,
    }
}

/// Reads one encoded save value at `pos`; mirrors `sp_value` exactly.
pub fn parse_value(b: &[u8], pos: usize) -> (r: Option<(SaveValue, usize)>)
    ensures
        match sp_value(b@, pos as int) {
            None => r is None,
            Some(p) => r matches Some(q) && sv_view(q.0) == p.0 && q.1 == pos + p.1,
        },
    decreases b@.len() - pos,
{
    if pos >= b.len() {
        return None;
    }
    let tag = b[pos];
    if tag == 0 {
        match parse_key(b, pos + 1) {
            Some((st, np)) => Some((SaveValue::String(st), np)),
            None => None,
        }
    } else if tag == 1 {
        if b.len() - pos < 9 {
            return None;
        }
        let n = read_u64_le(b, pos + 1);
        Some((SaveValue::Integer(n as i64), pos + 9))
    } else if tag == 2 {
        if b.len() - pos < 9 {
            return None;
        }
        let n = read_u64_le(b, pos + 1);
        Some((SaveValue::Float(n), pos + 9))
    } else if tag == 3 {
        if b.len() - pos < 2 {
            return None;
        }
        let v = b[pos + 1];
        if v != 0 && v != 1 {
            return None;
        }
        Some((SaveValue::Boolean(v == 1), pos + 2))
    } else if tag == 4 {
        if b.len() - pos < 9 {
            return None;
        }
        let count64 = read_u64_le(b, pos + 1);
        let start = pos + 9;
        let ghost count = count64 as int;
        if count64 > (b.len() - start) as u64 {
            return None;
        }
        let count_us = count64 as usize;
        let mut out: Vec<SaveValue> = Vec::new();
        let mut cur: usize = start;
        let mut k: usize = 0;
        let ghost whole = sp_list(b@, start as int, count);
        while k < count_us
            invariant
                start == pos + 9,
                pos + 9 <= b@.len(),
                0 <= start <= cur <= b@.len(),
                0 <= k <= count_us,
                count_us == count,
                whole == sp_list(b@, start as int, count),
                sp_value(b@, pos as int) == (match whole {
                    None => None::<(SaveNode, nat)>,
                    Some(w) => Some((SaveNode::Arr(w.0), (9 + w.1) as nat)),
                }),
                out@.len() == k,
                (match sp_list(b@, cur as int, count - k) {
                    None => whole is None,
                    Some(p) => whole matches Some(w) && w.0 == sv_views(out@) + p.0 && w.1 == (cur
                        - start) + p.1,
                }),
            decreases count_us - k,
        {
            proof {
                lemma_sp_value_bounds(b@, cur as int);
            }
            let ghost before = out@;
            let ghost step = sp_list(b@, cur as int, count - k);
            match parse_value(b, cur) {
                Some((v, np)) => {
                    proof {
                        let used = (np - cur) as nat;
                        lemma_sv_views_push(before, v);
                        if count - k > b@.len() - cur {
                            assert(sp_list(b@, np as int, count - k - 1) is None);
                        }
                    }
                    out.push(v);
                    cur = np;
                    k = k + 1;
                },
                None => {
                    return None;
                },
            }
        }
        proof {
            assert(sp_list(b@, cur as int, 0) == Some((Seq::<SaveNode>::empty(), 0nat)));
            assert(whole matches Some(w) && w.0 =~= sv_views(out@) && w.1 == cur - start);
        }
        Some((SaveValue::Array(out), cur))
    } else if tag == 5 {
        if b.len() - pos < 9 {
            return None;
        }
        let count64 = read_u64_le(b, pos + 1);
        let start = pos + 9;
        let ghost count = count64 as int;
        if count64 > (b.len() - start) as u64 {
            return None;
        }
        let count_us = count64 as usize;
        let mut out: Vec<(String, SaveValue)> = Vec::new();
        let mut cur: usize = start;
        let mut k: usize = 0;
        let ghost whole = sp_obj(b@, start as int, count);
        while k < count_us
            invariant
                start == pos + 9,
                pos + 9 <= b@.len(),
                0 <= start <= cur <= b@.len(),
                0 <= k <= count_us,
                count_us == count,
                whole == sp_obj(b@, start as int, count),
                sp_value(b@, pos as int) == (match whole {
                    None => None::<(SaveNode, nat)>,
                    Some(w) => Some((SaveNode::Obj(w.0), (9 + w.1) as nat)),
                }),
                out@.len() == k,
                (match sp_obj(b@, cur as int, count - k) {
                    None => whole is None,
                    Some(p) => whole matches Some(w) && w.0 == sv_entry_views(out@) + p.0 && w.1
                        == (cur - start) + p.1,
                }),
            decreases count_us - k,
        {
            let ghost before = out@;
            match parse_key(b, cur) {
                Some((key, kp)) => {
                    proof {
                        lemma_sp_value_bounds(b@, kp as int);
                    }
                    match parse_value(b, kp) {
                        Some((v, np)) => {
                            proof {
                                lemma_sv_entry_views_push(before, (key, v));
                                if count - k > b@.len() - cur {
                                    assert(sp_obj(b@, np as int, count - k - 1) is None);
                                }
                            }
                            out.push((key, v));
                            cur = np;
                            k = k + 1;
                        },
                        None => {
                            return None;
                        },
                    }
                },
                None => {
                    return None;
                },
            }
        }
        proof {
            assert(sp_obj(b@, cur as int, 0) == Some(
                (Seq::<(Seq<char>, SaveNode)>::empty(), 0nat),
            ));
            assert(whole matches Some(w) && w.0 =~= sv_entry_views(out@) && w.1 == cur - start);
        }
        Some((SaveValue::Object(out), cur))
    } else {
        None
    }
}

// --- the save file record ------------------------------------------------
/// The four little-endian bytes of `n`.
pub open spec fn u32_le(n: u32) -> Seq<u8> {
    seq![
        (n & 0xff) as u8,
        ((n >> 8) & 0xff) as u8,
        ((n >> 16) & 0xff) as u8,
        ((n >> 24) & 0xff) as u8,
    ]
}

/// The value four little-endian bytes carry.
pub open spec fn u32_from_le(b: Seq<u8>) -> u32
    recommends
        b.len() == 4,
{
    (b[0] as u32) | ((b[1] as u32) << 8) | ((b[2] as u32) << 16) | ((b[3] as u32) << 24)
}

/// Reading the four bytes of `n` yields `n` again.
pub proof fn lemma_u32_le_inverse(n: u32)
    ensures
        u32_from_le(u32_le(n)) == n,
{
    assert((((n & 0xff) as u8) as u32) | (((((n >> 8) & 0xff) as u8) as u32) << 8) | (((((n >> 16)
        & 0xff) as u8) as u32) << 16) | (((((n >> 24) & 0xff) as u8) as u32) << 24) == n)
        by (bit_vector);
}

/// The encoding of the key-value payload alone: an entry count and the
/// entries. The record checksum is the SHA-256 of exactly these bytes.
pub open spec fn data_enc(entries: Seq<(Seq<char>, SaveNode)>) -> Seq<u8> {
    u64_le(entries.len() as u64) + obj_enc(entries)
}

/// The plaintext encoding of a whole save record.
pub open spec fn file_enc(
    version: u32,
    game_id: Seq<char>,
    entries: Seq<(Seq<char>, SaveNode)>,
    checksum: Seq<char>,
    timestamp: u64,
) -> Seq<u8> {
    u32_le(version) + key_enc(game_id) + data_enc(entries) + key_enc(checksum) + u64_le(timestamp)
}

/// Reads a whole save record; the input must be consumed exactly.
pub open spec fn sp_file(b: Seq<u8>) -> Option<
    (u32, Seq<char>, Seq<(Seq<char>, SaveNode)>, Seq<char>, u64),
> {
    if b.len() < 4 {
        None
    } else {
        let version = u32_from_le(b.subrange(0, 4));
        match sp_key(b, 4) {
            None => None,
            Some((gid, gu)) => {
                let p1 = (4 + gu) as int;
                if p1 + 8 > b.len() {
                    None
                } else {
                    let count = u64_from_le(b.subrange(p1, p1 + 8)) as int;
                    match sp_obj(b, p1 + 8, count) {
                        None => None,
                        Some((entries, du)) => {
                            let p2 = (p1 + 8 + du) as int;
                            match sp_key(b, p2) {
                                None => None,
                                Some((chk, cu)) => {
                                    let p3 = (p2 + cu) as int;
                                    if p3 + 8 != b.len() {
                                        None
                                    } else {
                                        Some(
                                            (
                                                version,
                                                gid,
                                                entries,
                                                chk,
                                                u64_from_le(b.subrange(p3, p3 + 8)),
                                            ),
                                        )
                                    }
                                },
                            }
                        },
                    }
                }
            },
        }
    }
}

/// Appends the count-prefixed encoding of the entries.
pub fn encode_entries(out: &mut Vec<u8>, entries: &Vec<(String, SaveValue)>)
    ensures
        final(out)@ =~= old(out)@ + data_enc(sv_entry_views(entries@)),
        obj_wf(sv_entry_views(entries@)),
        sv_entry_views(entries@).len() <= u64::MAX,
{
    let n = entries.len();
    push_u64_le(out, n as u64);
    let ghost nodes = sv_entry_views(entries@);
    proof {
        lemma_sv_entry_views_index(entries@);
    }
    let ghost base = out@;
    let mut i: usize = 0;
    while i < n
        invariant
            n == entries@.len(),
            0 <= i <= n,
            nodes == sv_entry_views(entries@),
            nodes.len() == n,
            forall|j: int| 0 <= j < n ==> nodes[j] == (entries@[j].0@, sv_view(entries@[j].1)),
            out@ =~= base + obj_enc(nodes.take(i as int)),
            obj_wf(nodes.take(i as int)),
        decreases n - i,
    {
        push_str_key(out, entries[i].0.as_str());
        encode_value(out, &entries[i].1);
        proof {
            lemma_obj_enc_take(nodes, i as int);
            lemma_obj_wf_take(nodes, i as int);
        }
        i = i + 1;
    }
    proof {
        assert(nodes.take(n as int) =~= nodes);
    }
}

/// Serializes the key-value payload alone; these are the checksummed bytes.
pub fn serialize_save_data(entries: &Vec<(String, SaveValue)>) -> (r: Vec<u8>)
    ensures
        r@ =~= data_enc(sv_entry_views(entries@)),
        obj_wf(sv_entry_views(entries@)),
        sv_entry_views(entries@).len() <= u64::MAX,
{
    let mut out: Vec<u8> = Vec::new();
    encode_entries(&mut out, entries);
    out
}

/// Reads the count-prefixed entries at `pos`.
fn parse_entries(b: &[u8], pos: usize) -> (r: Option<(Vec<(String, SaveValue)>, usize)>)
    ensures
        ({
            let step = if pos + 8 <= b@.len() {
                let count = u64_from_le(b@.subrange(pos as int, pos + 8)) as int;
                sp_obj(b@, pos + 8, count)
            } else {
                None
            };
            match step {
                None => r is None,
                Some(p) => r matches Some(q) && sv_entry_views(q.0@) == p.0 && q.1 == pos + 8
                    + p.1,
            }
        }),
{
    if pos > b.len() || b.len() - pos < 8 {
        return None;
    }
    let count64 = read_u64_le(b, pos);
    let start = pos + 8;
    let ghost count = count64 as int;
    if count64 > (b.len() - start) as u64 {
        proof {
            assert(count > b@.len() - start);
        }
        return None;
    }
    let count_us = count64 as usize;
    let mut out: Vec<(String, SaveValue)> = Vec::new();
    let mut cur: usize = start;
    let mut k: usize = 0;
    let ghost whole = sp_obj(b@, start as int, count);
    while k < count_us
        invariant
            start == pos + 8,
            pos + 8 <= b@.len(),
            0 <= start <= cur <= b@.len(),
            0 <= k <= count_us,
            count_us == count,
            count == u64_from_le(b@.subrange(pos as int, pos + 8)) as int,
            whole == sp_obj(b@, start as int, count),
            out@.len() == k,
            (match sp_obj(b@, cur as int, count - k) {
                None => whole is None,
                Some(p) => whole matches Some(w) && w.0 == sv_entry_views(out@) + p.0 && w.1 == (
                cur - start) + p.1,
            }),
        decreases count_us - k,
    {
        let ghost before = out@;
        match parse_key(b, cur) {
            Some((key, kp)) => {
                proof {
                    lemma_sp_value_bounds(b@, kp as int);
                }
                match parse_value(b, kp) {
                    Some((v, np)) => {
                        proof {
                            lemma_sv_entry_views_push(before, (key, v));
                            if count - k > b@.len() - cur {
                                assert(sp_obj(b@, np as int, count - k - 1) is None);
                            }
                        }
                        out.push((key, v));
                        cur = np;
                        k = k + 1;
                    },
                    None => {
                        return None;
                    },
                }
            },
            None => {
                return None;
            },
        }
    }
    proof {
        assert(sp_obj(b@, cur as int, 0) == Some((Seq::<(Seq<char>, SaveNode)>::empty(), 0nat)));
        assert(whole matches Some(w) && w.0 =~= sv_entry_views(out@) && w.1 == cur - start);
    }
    Some((out, cur))
}

/// Reads a whole save record off its plaintext bytes; mirrors `sp_file`.
pub fn parse_save_file(b: &[u8]) -> (r: Option<(u32, String, Vec<(String, SaveValue)>, String, u64)>)
    ensures
        match sp_file(b@) {
            None => r is None,
            Some(p) => r matches Some(q) && q.0 == p.0 && q.1@ == p.1 && sv_entry_views(q.2@)
                == p.2 && q.3@ == p.3 && q.4 == p.4,
        },
{
    if b.len() < 4 {
        return None;
    }
    let version = (b[0] as u32) | ((b[1] as u32) << 8u32) | ((b[2] as u32) << 16u32) | ((b[3]
        as u32) << 24u32);
    proof {
        let s = b@.subrange(0, 4);
        assert(s[0] == b@[0] && s[1] == b@[1] && s[2] == b@[2] && s[3] == b@[3]);
    }
    let (gid, p1) = match parse_key(b, 4) {
        Some(x) => x,
        None => {
            return None;
        },
    };
    let (entries, p2) = match parse_entries(b, p1) {
        Some(x) => x,
        None => {
            return None;
        },
    };
    let (chk, p3) = match parse_key(b, p2) {
        Some(x) => x,
        None => {
            return None;
        },
    };
    if p3 > b.len() || b.len() - p3 != 8 {
        return None;
    }
    let ts = read_u64_le(b, p3);
    Some((version, gid, entries, chk, ts))
}

/// Reading a whole encoded save record yields its fields back: the round
/// trip of the save serialization, for every record whose lengths fit their
/// 64-bit fields.
pub proof fn lemma_sp_file_enc(
    version: u32,
    game_id: Seq<char>,
    entries: Seq<(Seq<char>, SaveNode)>,
    checksum: Seq<char>,
    timestamp: u64,
)
    requires
        obj_wf(entries),
        entries.len() <= u64::MAX,
        vstd::utf8::encode_utf8(game_id).len() <= u64::MAX,
        vstd::utf8::encode_utf8(checksum).len() <= u64::MAX,
    ensures
        sp_file(file_enc(version, game_id, entries, checksum, timestamp)) == Some(
            (version, game_id, entries, checksum, timestamp),
        ),
{
    let b = file_enc(version, game_id, entries, checksum, timestamp);
    let c0 = u32_le(version);
    let c1 = key_enc(game_id);
    let c2 = u64_le(entries.len() as u64);
    let c3 = obj_enc(entries);
    let c4 = key_enc(checksum);
    let c5 = u64_le(timestamp);
    assert(b =~= c0 + c1 + c2 + c3 + c4 + c5);
    let o1: int = 4;
    let o2 = o1 + c1.len();
    let o3 = o2 + 8;
    let o4 = o3 + c3.len();
    let o5 = o4 + c4.len();
    assert(b.len() == o5 + 8);
    assert(b.subrange(0, 4) =~= c0);
    lemma_u32_le_inverse(version);
    assert(b.subrange(o1, o1 + c1.len()) =~= c1);
    lemma_sp_key_enc(game_id, b, o1);
    assert(b.subrange(o2, o2 + 8) =~= c2);
    lemma_u64_le_inverse(entries.len() as u64);
    assert(b.subrange(o3, o3 + c3.len()) =~= c3);
    lemma_sp_obj_enc(entries, b, o3);
    assert(b.subrange(o4, o4 + c4.len()) =~= c4);
    lemma_sp_key_enc(checksum, b, o4);
    assert(b.subrange(o5, o5 + 8) =~= c5);
    lemma_u64_le_inverse(timestamp);
}

} // verus!
