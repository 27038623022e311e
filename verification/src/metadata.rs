use vstd::prelude::*;
use crate::internal::{le_bytes, le_bytes_of, le_value, lemma_le_bytes_len, lemma_le_bytes_roundtrip, pow256, push_all, FieldMetaData};

verus! {

/// The provider traits blob that names a provider: its total size as a
/// 16-bit little-endian number (cut to 16 bits), then the name, then a NUL.
pub open spec fn spec_provider_traits(name: Seq<u8>) -> Seq<u8> {
    le_bytes(((name.len() + 3) % 0x1_0000) as nat, 2) + name + seq![0u8]
}

/// The provider traits blob for a provider named `name`.
pub fn provider_traits(name: &[u8]) -> (blob: Vec<u8>)
    ensures
        blob@ == spec_provider_traits(name@),
{
    let size: u64 = ((name.len() % 0x1_0000) as u64 + 3) % 0x1_0000;
    let mut blob = le_bytes_of(size, 2);
    push_all(&mut blob, name);
    blob.push(0u8);
    blob
}

/// The byte sequences of `parts`, one after the other.
pub open spec fn concat(parts: Seq<Seq<u8>>) -> Seq<u8>
    decreases parts.len(),
{
    if parts.len() == 0 {
        seq![]
    } else {
        concat(parts.drop_last()) + parts.last()
    }
}

/// The packed bytes of each field entry.
pub open spec fn entry_bytes(fields: Seq<FieldMetaData<Vec<u8>>>) -> Seq<Seq<u8>> {
    fields.map_values(|f: FieldMetaData<Vec<u8>>| f.spec_bytes())
}

/// The event metadata after its size: the tags byte (0), the event name, a
/// NUL, then the packed field entries.
pub open spec fn metadata_body(event_name: Seq<u8>, entries: Seq<Seq<u8>>) -> Seq<u8> {
    seq![0u8] + event_name + seq![0u8] + concat(entries)
}

/// The event metadata blob: its total size as a 16-bit little-endian number
/// (cut to 16 bits), then the body.
pub open spec fn spec_event_metadata(event_name: Seq<u8>, entries: Seq<Seq<u8>>) -> Seq<u8> {
    let body = metadata_body(event_name, entries);
    le_bytes(((body.len() + 2) % 0x1_0000) as nat, 2) + body
}

/// The metadata blob of an event named `event_name` with the given fields.
pub fn event_metadata(event_name: &[u8], fields: &[FieldMetaData<Vec<u8>>]) -> (blob: Vec<u8>)
    ensures
        blob@ == spec_event_metadata(event_name@, entry_bytes(fields@)),
{
    let mut body: Vec<u8> = Vec::new();
    body.push(0u8);
    push_all(&mut body, event_name);
    body.push(0u8);
    let ghost head = body@;
    let ghost entries = entry_bytes(fields@);
    let mut k: usize = 0;
    while k < fields.len()
        invariant
            k <= fields@.len(),
            entries == entry_bytes(fields@),
            head == seq![0u8] + event_name@ + seq![0u8],
            body@ == head + concat(entries.take(k as int)),
        decreases fields@.len() - k,
    {
        let entry = fields[k].to_bytes();
        push_all(&mut body, entry.as_slice());
        assert(entries.take(k + 1).drop_last() =~= entries.take(k as int));
        assert(entries.take(k + 1).last() == entry@);
        k = k + 1;
        assert(body@ =~= head + concat(entries.take(k as int)));
    }
    assert(entries.take(k as int) =~= entries);
    let size: u64 = ((body.len() % 0x1_0000) as u64 + 2) % 0x1_0000;
    let mut blob = le_bytes_of(size, 2);
    push_all(&mut blob, body.as_slice());
    blob
}

proof fn lemma_size_prefix(total: nat, rest: Seq<u8>)
    requires
        total == rest.len() + 2,
    ensures
        (le_bytes((total % 0x1_0000) as nat, 2) + rest).len() == total,
        (le_bytes((total % 0x1_0000) as nat, 2) + rest).take(2) == le_bytes(
            (total % 0x1_0000) as nat,
            2,
        ),
        total < 0x1_0000 ==> le_value(
            (le_bytes((total % 0x1_0000) as nat, 2) + rest).take(2),
        ) == total,
{
    let head = le_bytes((total % 0x1_0000) as nat, 2);
    lemma_le_bytes_len((total % 0x1_0000) as nat, 2);
    assert((head + rest).take(2) =~= head);
    assert(pow256(2) == 0x1_0000) by {
        reveal_with_fuel(pow256, 3);
    }
    if total < 0x1_0000 {
        lemma_le_bytes_roundtrip(total, 2);
    }
}

/// The event metadata states its own length: the blob is two bytes longer
/// than its body, and, where it is shorter than 64 KiB, its first two bytes
/// read little-endian give its length.
pub proof fn lemma_event_metadata_states_its_size(event_name: Seq<u8>, entries: Seq<Seq<u8>>)
    ensures
        spec_event_metadata(event_name, entries).len() == metadata_body(event_name, entries).len()
            + 2,
        spec_event_metadata(event_name, entries).len() < 0x1_0000 ==> le_value(
            spec_event_metadata(event_name, entries).take(2),
        ) == spec_event_metadata(event_name, entries).len(),
{
    let body = metadata_body(event_name, entries);
    lemma_size_prefix(body.len() + 2, body);
}

/// The provider traits blob states its own length: it is three bytes longer
/// than the name, and, where it is shorter than 64 KiB, its first two bytes
/// read little-endian give its length.
pub proof fn lemma_provider_traits_states_its_size(name: Seq<u8>)
    ensures
        spec_provider_traits(name).len() == name.len() + 3,
        spec_provider_traits(name).len() < 0x1_0000 ==> le_value(
            spec_provider_traits(name).take(2),
        ) == spec_provider_traits(name).len(),
{
    lemma_size_prefix(name.len() + 3, name + seq![0u8]);
    let head = le_bytes(((name.len() + 3) % 0x1_0000) as nat, 2);
    assert(head + name + seq![0u8] =~= head + (name + seq![0u8]));
}

/// The total length of `entries`.
pub open spec fn total_len(entries: Seq<Seq<u8>>) -> nat
    decreases entries.len(),
{
    if entries.len() == 0 {
        0
    } else {
        total_len(entries.drop_last()) + entries.last().len()
    }
}

proof fn lemma_concat_layout(entries: Seq<Seq<u8>>)
    ensures
        concat(entries).len() == total_len(entries),
        forall|j: int|
            0 <= j < entries.len() ==> total_len(entries.take(j)) + entries[j].len() <= total_len(
                entries,
            ) && concat(entries).subrange(
                total_len(#[trigger] entries.take(j)) as int,
                (total_len(entries.take(j)) + entries[j].len()) as int,
            ) == entries[j],
    decreases entries.len(),
{
    if entries.len() > 0 {
        let init = entries.drop_last();
        lemma_concat_layout(init);
        assert forall|j: int| 0 <= j < entries.len() implies total_len(entries.take(j))
            + entries[j].len() <= total_len(entries) && concat(entries).subrange(
            total_len(#[trigger] entries.take(j)) as int,
            (total_len(entries.take(j)) + entries[j].len()) as int,
        ) == entries[j] by {
            if j < entries.len() - 1 {
                assert(entries.take(j) =~= init.take(j));
                assert(init[j] == entries[j]);
                let a = total_len(init.take(j)) as int;
                assert(concat(entries).subrange(a, a + entries[j].len()) =~= concat(init).subrange(
                    a,
                    a + entries[j].len(),
                ));
            } else {
                assert(entries.take(j) =~= init);
                assert(concat(entries).subrange(
                    concat(init).len() as int,
                    (concat(init).len() + entries.last().len()) as int,
                ) =~= entries.last());
            }
        }
    }
}

/// The event metadata is laid out as its size (two bytes), the tags byte 0,
/// the event name, a NUL, then every field entry in full and in order: each
/// entry stands at the offset given by the lengths of the entries before
/// it, and the blob ends right after the last one.
pub proof fn lemma_event_metadata_layout(event_name: Seq<u8>, entries: Seq<Seq<u8>>)
    ensures
        spec_event_metadata(event_name, entries).len() == event_name.len() + 4 + total_len(entries),
        spec_event_metadata(event_name, entries)[2] == 0u8,
        spec_event_metadata(event_name, entries).subrange(3, 3 + event_name.len() as int)
            == event_name,
        spec_event_metadata(event_name, entries)[3 + event_name.len() as int] == 0u8,
        forall|j: int|
            0 <= j < entries.len() ==> spec_event_metadata(event_name, entries).subrange(
                (event_name.len() + 4 + total_len(#[trigger] entries.take(j))) as int,
                (event_name.len() + 4 + total_len(entries.take(j)) + entries[j].len()) as int,
            ) == entries[j],
{
    lemma_concat_layout(entries);
    let body = metadata_body(event_name, entries);
    let head = le_bytes(((body.len() + 2) % 0x1_0000) as nat, 2);
    lemma_le_bytes_len(((body.len() + 2) % 0x1_0000) as nat, 2);
    let blob = spec_event_metadata(event_name, entries);
    let c = concat(entries);
    let off = event_name.len() + 4int;
    assert(blob == head + body);
    assert(blob.subrange(3, 3 + event_name.len() as int) =~= event_name);
    assert forall|j: int| 0 <= j < entries.len() implies blob.subrange(
        (event_name.len() + 4 + total_len(#[trigger] entries.take(j))) as int,
        (event_name.len() + 4 + total_len(entries.take(j)) + entries[j].len()) as int,
    ) == entries[j] by {
        let a = total_len(entries.take(j)) as int;
        assert(blob.subrange(off + a, off + a + entries[j].len()) =~= c.subrange(
            a,
            a + entries[j].len(),
        ));
    }
}

/// The provider traits blob is its size (two bytes), then every byte of the
/// name unchanged, then one NUL.
pub proof fn lemma_provider_traits_layout(name: Seq<u8>)
    ensures
        spec_provider_traits(name).len() == name.len() + 3,
        spec_provider_traits(name).subrange(2, name.len() + 2int) == name,
        spec_provider_traits(name)[name.len() + 2int] == 0u8,
{
    lemma_le_bytes_len(((name.len() + 3) % 0x1_0000) as nat, 2);
    assert(spec_provider_traits(name).subrange(2, name.len() + 2int) =~= name);
}

} // verus!
