use vstd::prelude::*;
use crate::entropy::random_below;
use crate::error::Error;
use vstd::string::StringExecFns;
use crate::text::{lemma_ascii_bytes_utf8, utf8_to_string};

verus! {

/// One member of a room's membership set, with the join timestamp that
/// orders members for ownership transfer.
#[derive(Clone, Copy, Debug)]
pub struct Member {
    pub uuid: u128,
    pub joined_at: i64,
}

/// Outcome of removing a member: either ownership passed to the earliest
/// remaining member, or the room is now empty and the caller should
/// delete it.
pub enum RemoveStatus {
    Transferred { new_owner: u128 },
    LastMember,
}

/// A room: a shared queue with a join code and exactly one owner.
pub struct Room {
    pub uuid: u128,
    pub owner: u128,
    pub name: String,
    pub join_code: String,
}

/// The fields a caller supplies to mint a new room.
pub struct RoomBuildable {
    pub user_owner: u128,
    pub name: String,
}

/// A join-code character: an uppercase letter or a digit.
pub open spec fn is_code_char(c: char) -> bool {
    (0x30 <= c as u32 <= 0x39) || (0x41 <= c as u32 <= 0x5a)
}

/// A well-formed join code: exactly six uppercase alphanumeric characters.
pub open spec fn code_wf(s: Seq<char>) -> bool {
    s.len() == 6 && forall|i: int| 0 <= i < s.len() ==> is_code_char(#[trigger] s[i])
}

/// Whether some room already uses this join code.
pub open spec fn spec_code_taken(existing: Seq<String>, code: Seq<char>) -> bool {
    exists|i: int| 0 <= i < existing.len() && existing[i]@ == code
}

/// The number of uppercase alphanumeric join-code characters.
pub const CODE_ALPHABET_SIZE: usize = 36;

/// The length of a join code.
pub const JOIN_CODE_LENGTH: usize = 6;

/// Draws a six-character join code uniformly from the uppercase
/// alphanumeric alphabet.
pub fn generate_join_code() -> (code: String)
    ensures
        code_wf(code@),
{
    let mut bytes: Vec<u8> = Vec::new();
    let mut i: usize = 0;
    #[verifier::loop_isolation(false)]
    while i < JOIN_CODE_LENGTH
        invariant
            i <= JOIN_CODE_LENGTH,
            bytes@.len() == i,
            forall|j: int|
                0 <= j < bytes@.len() ==> {
                    let b = #[trigger] bytes@[j];
                    (0x30 <= b <= 0x39) || (0x41 <= b <= 0x5a)
                },
        decreases JOIN_CODE_LENGTH - i,
    {
        let k = random_below(CODE_ALPHABET_SIZE);
        let b: u8 = if k < 10 {
            0x30 + (k as u8)
        } else {
            0x41 + (k as u8 - 10)
        };
        bytes.push(b);
        i += 1;
    }
    proof {
        lemma_ascii_bytes_utf8(bytes@);
    }
    match utf8_to_string(bytes) {
        Some(code) => code,
        None => {
            proof {
                assert(false);
            }
            vstd::pervasive::unreached()
        },
    }
}

/// Whether the candidate code collides with one already in use.
pub fn code_is_taken(existing: &Vec<String>, code: &String) -> (r: bool)
    ensures
        r == spec_code_taken(existing@, code@),
{
    let n = existing.len();
    let mut i: usize = 0;
    while i < n
        invariant
            n == existing@.len(),
            i <= n,
            forall|j: int| 0 <= j < i ==> existing@[j]@ != code@,
        decreases n - i,
    {
        if existing[i].eq(code) {
            proof {
                assert(existing@[i as int]@ == code@);
            }
            return true;
        }
        i += 1;
    }
    false
}

/// The first candidate code that collides with no existing code, walking
/// the candidates in order; colliding candidates are passed over, exactly
/// as a drawn code that collides is redrawn.
pub fn first_fresh_code(existing: &Vec<String>, candidates: &Vec<String>) -> (r: Option<String>)
    ensures
        match r {
            Some(code) => exists|k: int|
                0 <= k < candidates@.len() && code == candidates@[k] && !spec_code_taken(
                    existing@,
                    candidates@[k]@,
                ) && forall|j: int| 0 <= j < k ==> spec_code_taken(existing@, candidates@[j]@),
            None => forall|k: int|
                0 <= k < candidates@.len() ==> spec_code_taken(existing@, candidates@[k]@),
        },
{
    let n = candidates.len();
    let mut i: usize = 0;
    while i < n
        invariant
            n == candidates@.len(),
            i <= n,
            forall|j: int| 0 <= j < i ==> spec_code_taken(existing@, candidates@[j]@),
        decreases n - i,
    {
        if !code_is_taken(existing, &candidates[i]) {
            let code = candidates[i].clone();
            proof {
                assert(code == candidates@[i as int] && !spec_code_taken(
                    existing@,
                    candidates@[i as int]@,
                ));
            }
            return Some(code);
        }
        i += 1;
    }
    None
}

/// Draws join codes until one collides with no existing code; a drawn
/// code that is already in use is discarded and a new one drawn. The
/// number of draws is bounded; the bound can only be reached while some
/// existing code is itself a well-formed join code, since every draw is
/// one: in particular, against an empty code set the first draw wins.
pub fn unique_join_code(existing: &Vec<String>) -> (r: Option<String>)
    ensures
        (forall|i: int| 0 <= i < existing@.len() ==> !code_wf((#[trigger] existing@[i])@)) ==> r
            is Some,
        existing@.len() == 0 ==> r is Some,
        match r {
            Some(code) => code_wf(code@) && !spec_code_taken(existing@, code@),
            None => true,
        },
{
    let mut attempts: usize = 1000;
    #[verifier::loop_isolation(false)]
    while attempts > 0
        invariant
            (forall|i: int|
                0 <= i < existing@.len() ==> !code_wf((#[trigger] existing@[i])@)) ==> attempts
                == 1000,
        decreases attempts,
    {
        let code = generate_join_code();
        if !code_is_taken(existing, &code) {
            return Some(code);
        }
        proof {
            let i = choose|i: int| 0 <= i < existing@.len() && existing@[i]@ == code@;
            assert(code_wf(existing@[i]@));
        }
        attempts -= 1;
    }
    None
}

/// Whether the given user stands in the membership set; callers must
/// check this before letting a user act on a room.
pub fn member_exists(members: &Vec<Member>, user: u128) -> (r: bool)
    ensures
        r == exists|i: int| 0 <= i < members@.len() && (#[trigger] members@[i]).uuid == user,
{
    let n = members.len();
    let mut i: usize = 0;
    while i < n
        invariant
            n == members@.len(),
            i <= n,
            forall|j: int| 0 <= j < i ==> (#[trigger] members@[j]).uuid != user,
        decreases n - i,
    {
        if members[i].uuid == user {
            proof {
                assert(i < members@.len() && members@[i as int].uuid == user);
            }
            return true;
        }
        i += 1;
    }
    false
}

/// Labels each member with its display name and whether it owns the
/// room, in membership order. `names` carries, position for position,
/// the name looked up for each member, or nothing where the user record
/// could not be found — an internal inconsistency reported as the
/// conflict outcome, exactly when some name is missing.
pub fn label_members(members: &Vec<Member>, names: &Vec<Option<String>>, owner: u128) -> (r: Result<
    Vec<(Member, String, bool)>,
    Error,
>)
    requires
        members@.len() == names@.len(),
    ensures
        match r {
            Ok(labeled) => {
                &&& forall|i: int| 0 <= i < names@.len() ==> (#[trigger] names@[i]) is Some
                &&& labeled@.len() == members@.len()
                &&& forall|i: int|
                    0 <= i < labeled@.len() ==> {
                        let t = #[trigger] labeled@[i];
                        &&& t.0 == members@[i]
                        &&& Some(t.1) == names@[i]
                        &&& (t.2 <==> members@[i].uuid == owner)
                    }
            },
            Err(e) => (exists|i: int|
                0 <= i < names@.len() && (#[trigger] names@[i]) is None) && e is Conflict,
        },
{
    let n = members.len();
    let mut out: Vec<(Member, String, bool)> = Vec::new();
    let mut i: usize = 0;
    #[verifier::loop_isolation(false)]
    while i < n
        invariant
            i <= n,
            out@.len() == i,
            forall|j: int| 0 <= j < i ==> (#[trigger] names@[j]) is Some,
            forall|j: int|
                0 <= j < i ==> {
                    let t = #[trigger] out@[j];
                    &&& t.0 == members@[j]
                    &&& Some(t.1) == names@[j]
                    &&& (t.2 <==> members@[j].uuid == owner)
                },
        decreases n - i,
    {
        match &names[i] {
            Some(nm) => {
                let m = members[i];
                out.push((m, nm.clone(), m.uuid == owner));
                i += 1;
            },
            None => {
                proof {
                    assert(i < names@.len() && names@[i as int] is None);
                }
                return Err(Error::Conflict(String::from_str("a member has no user record")));
            },
        }
    }
    Ok(out)
}

/// Join codes stay pairwise distinct: a set of distinct codes extended
/// by a code that collides with none of them is still distinct — so
/// creating rooms one after another, each under a code checked against
/// all codes then active, yields all-distinct codes.
pub proof fn lemma_fresh_code_keeps_distinct(existing: Seq<String>, code: String)
    requires
        forall|i: int, j: int| 0 <= i < j < existing.len() ==> existing[i]@ != existing[j]@,
        !spec_code_taken(existing, code@),
    ensures
        forall|i: int, j: int|
            0 <= i < j < existing.push(code).len() ==> existing.push(code)[i]@ != existing.push(
                code,
            )[j]@,
{
    assert forall|i: int, j: int|
        0 <= i < j < existing.push(code).len() implies existing.push(code)[i]@ != existing.push(
        code,
    )[j]@ by {
        if j == existing.len() {
            assert(existing.push(code)[j] == code);
            assert(existing.push(code)[i] == existing[i]);
            assert(existing[i]@ != code@);
        } else {
            assert(existing.push(code)[i] == existing[i]);
            assert(existing.push(code)[j] == existing[j]);
        }
    }
}

/// The index the departing scan settles on: the earliest-joined member,
/// the first of them on a tie.
pub open spec fn is_earliest(ms: Seq<Member>, k: int) -> bool {
    &&& 0 <= k < ms.len()
    &&& forall|j: int| 0 <= j < ms.len() ==> ms[k].joined_at <= #[trigger] ms[j].joined_at
    &&& forall|j: int| 0 <= j < k ==> #[trigger] ms[j].joined_at > ms[k].joined_at
}

impl Room {
    /// Mints a room owned by the given user, under a join code that
    /// collides with no code in `existing_codes`. Fails only when the
    /// bounded sequence of random draws never found a fresh code, which
    /// needs some existing code to be a well-formed join code: against
    /// an empty code set creation always succeeds.
    pub fn create(buildable: RoomBuildable, existing_codes: &Vec<String>, uuid: u128) -> (r: Option<
        Room,
    >)
        ensures
            (forall|i: int|
                0 <= i < existing_codes@.len() ==> !code_wf((#[trigger] existing_codes@[i])@))
                ==> r is Some,
            existing_codes@.len() == 0 ==> r is Some,
            match r {
                Some(room) => {
                    &&& room.uuid == uuid
                    &&& room.owner == buildable.user_owner
                    &&& room.name == buildable.name
                    &&& code_wf(room.join_code@)
                    &&& !spec_code_taken(existing_codes@, room.join_code@)
                },
                None => true,
            },
    {
        match unique_join_code(existing_codes) {
            Some(join_code) => Some(
                Room { uuid, owner: buildable.user_owner, name: buildable.name, join_code },
            ),
            None => None,
        }
    }

    /// Records that a user joined the room at the given time.
    pub fn add_user(&self, members: &mut Vec<Member>, user: u128, joined_at: i64)
        ensures
            final(members)@ == old(members)@.push(Member { uuid: user, joined_at }),
    {
        members.push(Member { uuid: user, joined_at });
    }

    /// Removes the departing member and transfers ownership to the
    /// earliest-joined remaining member (first joiner wins a tie). When
    /// nobody remains the room keeps its owner and the caller is told to
    /// delete it.
    pub fn remove_user(&mut self, members: &mut Vec<Member>, user: u128) -> (r: RemoveStatus)
        ensures
            final(members)@ == old(members)@.filter(|m: Member| m.uuid != user),
            final(self).uuid == old(self).uuid,
            final(self).name == old(self).name,
            final(self).join_code == old(self).join_code,
            ({
                let remaining = old(members)@.filter(|m: Member| m.uuid != user);
                if remaining.len() == 0 {
                    r == RemoveStatus::LastMember && final(self).owner == old(self).owner
                } else {
                    exists|k: int|
                        is_earliest(remaining, k) && r == (RemoveStatus::Transferred {
                            new_owner: remaining[k].uuid,
                        }) && final(self).owner == remaining[k].uuid
                }
            }),
    {
        let ghost pred = |m: Member| m.uuid != user;
        let mut remaining: Vec<Member> = Vec::new();
        let n = members.len();
        let mut i: usize = 0;
        #[verifier::loop_isolation(false)]
        while i < n
            invariant
                i <= n,
                remaining@ == members@.subrange(0, i as int).filter(pred),
            decreases n - i,
        {
            let m = members[i];
            if m.uuid != user {
                remaining.push(m);
            }
            i += 1;
            proof {
                reveal_with_fuel(Seq::filter, 2);
                assert(members@.subrange(0, i as int) =~= members@.subrange(0, i - 1) + seq![m]);
                Seq::filter_distributes_over_add(members@.subrange(0, i - 1), seq![m], pred);
                assert(seq![m].drop_last() =~= Seq::<Member>::empty());
                assert(remaining@ == members@.subrange(0, i as int).filter(pred));
            }
        }
        proof {
            assert(members@.subrange(0, n as int) =~= members@);
        }
        if remaining.len() == 0 {
            *members = remaining;
            return RemoveStatus::LastMember;
        }
        let rn = remaining.len();
        let mut best: usize = 0;
        let mut j: usize = 1;
        #[verifier::loop_isolation(false)]
        while j < rn
            invariant
                best < j <= rn,
                forall|t: int|
                    0 <= t < j ==> remaining@[best as int].joined_at <= (#[trigger] remaining@[t]).joined_at,
                forall|t: int|
                    0 <= t < best ==> (#[trigger] remaining@[t]).joined_at
                        > remaining@[best as int].joined_at,
            decreases rn - j,
        {
            if remaining[j].joined_at < remaining[best].joined_at {
                best = j;
            }
            j += 1;
        }
        let new_owner = remaining[best].uuid;
        self.owner = new_owner;
        *members = remaining;
        proof {
            let remaining_s = old(members)@.filter(pred);
            assert(is_earliest(remaining_s, best as int));
        }
        RemoveStatus::Transferred { new_owner }
    }
}

/// After a transfer the recorded owner is one of the remaining members:
/// the earliest-joined index always lies inside the sequence it was
/// chosen from.
pub proof fn lemma_new_owner_is_member(ms: Seq<Member>, k: int)
    requires
        is_earliest(ms, k),
    ensures
        exists|i: int| 0 <= i < ms.len() && #[trigger] ms[i].uuid == ms[k].uuid,
{
    let w = ms[k].uuid;
    assert(0 <= k < ms.len() && ms[k].uuid == w);
}

} // verus!
