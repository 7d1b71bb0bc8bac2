//! Required sockets of a fused frame: each `<partId>.<socketId>` a kit
//! declares must name a socket of a kit part and have occupied cells near it.

use vstd::prelude::*;
use vstd::string::StrSliceExecFns;
use vstd::string::StringExecFns;

use crate::fusion::FusionError;
use crate::kit::{find_part, find_socket, first_dot, first_dot_from, first_part_from, first_socket_from, VoxelKit};

verus! {

/// Where required socket `r` sits in the kit: its part's and its socket's
/// positions, or why it cannot be found.
pub open spec fn socket_resolution(kit: VoxelKit, r: Seq<char>) -> Result<(int, int), Seq<char>> {
    match first_dot_from(r, 0) {
        None => Err("required socket "@ + r + " is malformed"@),
        Some(d) => {
            let part_id = r.subrange(0, d);
            let socket_id = r.subrange(d + 1, r.len() as int);
            match first_part_from(kit.parts@, part_id, 0) {
                None => Err("required socket part "@ + part_id + " is absent"@),
                Some(p) => match first_socket_from(kit.parts@[p].sockets@, socket_id, 0) {
                    None => Err("required socket "@ + r + " is absent"@),
                    Some(s) => Ok((p, s)),
                },
            }
        },
    }
}

/// The first required socket, from `k` on, that cannot be found or whose
/// neighbourhood `near` reports empty.
pub open spec fn anchors_fault_from(kit: VoxelKit, near: Seq<bool>, k: int) -> Option<Seq<char>>
    decreases kit.invariants.required_sockets@.len() - k,
{
    let required = kit.invariants.required_sockets@;
    if k < 0 || k >= required.len() {
        None
    } else {
        match socket_resolution(kit, required[k]@) {
            Err(m) => Some(m),
            Ok(_) => if !near[k] {
                Some("required socket "@ + required[k]@ + " has no occupied neighborhood"@)
            } else {
                anchors_fault_from(kit, near, k + 1)
            },
        }
    }
}

fn anchor_error(message: String) -> (e: FusionError)
    ensures
        e.spec_code()@ == "fusion.missingAnchor"@,
        e.spec_message() == message@,
{
    FusionError::new("fusion.missingAnchor", message)
}

/// Finds required socket `k` of the kit: the position of its part and of
/// the socket within that part.
pub fn resolve_required_socket(kit: &VoxelKit, k: usize) -> (result: Result<(usize, usize), FusionError>)
    requires
        k < kit.invariants.required_sockets@.len(),
    ensures
        match socket_resolution(*kit, kit.invariants.required_sockets@[k as int]@) {
            Ok((p, s)) => result == Ok::<(usize, usize), FusionError>((p as usize, s as usize)) && p
                < kit.parts@.len() && s < kit.parts@[p].sockets@.len(),
            Err(m) => result matches Err(e) && e.spec_code()@ == "fusion.missingAnchor"@ && e.spec_message() == m,
        },
{
    let required = kit.invariants.required_sockets[k].as_str();
    let n = required.unicode_len();
    match first_dot(required, 0) {
        None => {
            let mut m = String::from_str("required socket ");
            m.append(required);
            m.append(" is malformed");
            Err(anchor_error(m))
        },
        Some(d) => {
            let part_id = required.substring_char(0, d);
            let socket_id = required.substring_char(d + 1, n);
            match find_part(&kit.parts, part_id) {
                None => {
                    let mut m = String::from_str("required socket part ");
                    m.append(part_id);
                    m.append(" is absent");
                    Err(anchor_error(m))
                },
                Some(p) => match find_socket(&kit.parts[p].sockets, socket_id) {
                    None => {
                        let mut m = String::from_str("required socket ");
                        m.append(required);
                        m.append(" is absent");
                        Err(anchor_error(m))
                    },
                    Some(s) => Ok((p, s)),
                },
            }
        },
    }
}

/// Checks the kit's required sockets in order: each must resolve to a
/// socket of a kit part, and `near[k]` (whether occupied cells lie within
/// the socket's reach in the posed frame) must hold for socket `k`.
pub fn check_required_sockets(kit: &VoxelKit, near: &Vec<bool>) -> (result: Result<(), FusionError>)
    requires
        near@.len() == kit.invariants.required_sockets@.len(),
    ensures
        result is Ok <==> anchors_fault_from(*kit, near@, 0) is None,
        result matches Err(e) ==> e.spec_code()@ == "fusion.missingAnchor"@ && Some(e.spec_message())
            == anchors_fault_from(*kit, near@, 0),
{
    let mut k: usize = 0;
    while k < kit.invariants.required_sockets.len()
        invariant
            near@.len() == kit.invariants.required_sockets@.len(),
            k <= kit.invariants.required_sockets@.len(),
            anchors_fault_from(*kit, near@, 0) == anchors_fault_from(*kit, near@, k as int),
        decreases kit.invariants.required_sockets@.len() - k,
    {
        resolve_required_socket(kit, k)?;
        if !near[k] {
            let mut m = String::from_str("required socket ");
            m.append(kit.invariants.required_sockets[k].as_str());
            m.append(" has no occupied neighborhood");
            return Err(anchor_error(m));
        }
        k = k + 1;
    }
    Ok(())
}

} // verus!
