use vstd::prelude::*;

use crate::text::{lemma_zero_at, zero_at};
use crate::util::copy_range;
use crate::util::io::{read_u32_le, u32_le};

verus! {

/// Bytes of the name field of an archive entry.
pub const NAME_FIELD_LEN: usize = 24;

/// Bytes of an entry's header: name field, data size, next entry's offset.
pub const ENTRY_HEADER_LEN: usize = 32;

/// One member of a flat archive.
pub struct Member {
    /// The name's bytes, without the field's first byte and the terminator.
    pub name: Vec<u8>,
    pub data: Vec<u8>,
}

/// A member's name and data.
pub open spec fn member_view(m: Member) -> (Seq<u8>, Seq<u8>) {
    (m.name@, m.data@)
}

/// The name and data of each member.
pub open spec fn members_view(v: Seq<Member>) -> Seq<(Seq<u8>, Seq<u8>)> {
    v.map_values(|m: Member| member_view(m))
}

/// Length of the zero-terminated name in the name field at `p`.
pub open spec fn name_len(data: Seq<u8>, p: int) -> int {
    if zero_at(data, p) < p + NAME_FIELD_LEN {
        zero_at(data, p) - p
    } else {
        NAME_FIELD_LEN as int
    }
}

/// The members from the entry at `p` on, after those in `found`; `None` when
/// an entry's header or data runs past the end. The list ends at a name field
/// that does not fit or starts with a zero byte, and after an entry whose next
/// offset does not lie past it.
pub open spec fn members_from(
    data: Seq<u8>,
    p: int,
    found: Seq<(Seq<u8>, Seq<u8>)>,
) -> Option<Seq<(Seq<u8>, Seq<u8>)>>
    decreases data.len() - p,
{
    if p < 0 || p + NAME_FIELD_LEN > data.len() || name_len(data, p) == 0 {
        Some(found)
    } else if p + ENTRY_HEADER_LEN > data.len() {
        None
    } else {
        let size = u32_le(data, p + 24);
        let next = u32_le(data, p + 28);
        if p + ENTRY_HEADER_LEN + size > data.len() {
            None
        } else {
            let member = (
                data.subrange(p + 1, p + name_len(data, p)),
                data.subrange(p + ENTRY_HEADER_LEN, p + ENTRY_HEADER_LEN + size),
            );
            if next <= p || next + NAME_FIELD_LEN > data.len() {
                Some(found.push(member))
            } else {
                members_from(data, next, found.push(member))
            }
        }
    }
}

/// Finds the name length of the entry at `p`.
fn find_name_len(data: &[u8], p: usize) -> (n: usize)
    requires
        p + NAME_FIELD_LEN <= data@.len(),
    ensures
        n == name_len(data@, p as int),
{
    let mut k: usize = 0;
    let len = data.len();
    while k < NAME_FIELD_LEN && data[p + k] != 0
        invariant
            k <= NAME_FIELD_LEN,
            p + NAME_FIELD_LEN <= data@.len(),
            data@.len() == len,
            zero_at(data@, (p + k) as int) == zero_at(data@, p as int),
        decreases NAME_FIELD_LEN - k,
    {
        k = k + 1;
    }
    proof {
        lemma_zero_at(data@, (p + k) as int);
    }
    k
}

/// Splits a flat archive held whole in `data` into its members: each entry is
/// a 24-byte name field, a `u32` data size and the `u32` offset of the next
/// entry, then the data. `None` when an entry runs past the end of the data.
pub fn split_archive(data: &[u8]) -> (r: Option<Vec<Member>>)
    ensures
        r is None <==> members_from(data@, 0, Seq::empty()) is None,
        r matches Some(v) ==> members_from(data@, 0, Seq::empty()) == Some(members_view(v@)),
{
    let len = data.len();
    let mut out: Vec<Member> = Vec::new();
    let mut p: usize = 0;
    let ghost whole = members_from(data@, 0, Seq::empty());
    assert(members_view(out@) =~= Seq::empty());
    loop
        invariant
            data@.len() == len,
            p <= len,
            whole == members_from(data@, 0, Seq::empty()),
            members_from(data@, p as int, members_view(out@)) == whole,
        decreases len - p,
    {
        if len - p < NAME_FIELD_LEN {
            return Some(out);
        }
        let name_end = find_name_len(data, p);
        if name_end == 0 {
            return Some(out);
        }
        if len - p < ENTRY_HEADER_LEN {
            return None;
        }
        let size = read_u32_le(data, p + 24) as usize;
        let next = read_u32_le(data, p + 28) as usize;
        if len - p - ENTRY_HEADER_LEN < size {
            return None;
        }
        let name = copy_range(data, p + 1, name_end - 1);
        let body = copy_range(data, p + ENTRY_HEADER_LEN, size);
        let ghost before = members_view(out@);
        out.push(Member { name, data: body });
        assert(members_view(out@) =~= before.push(
            (
                data@.subrange(p + 1, p + name_len(data@, p as int)),
                data@.subrange(p + ENTRY_HEADER_LEN, p + ENTRY_HEADER_LEN + size),
            ),
        ));
        if next <= p || next > len || len - next < NAME_FIELD_LEN {
            return Some(out);
        }
        p = next;
    }
}

} // verus!
