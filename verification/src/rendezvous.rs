//! The rendezvous blob protocol around the published blob: TTL eviction
//! of invitations and shadows, shadow upserts, and turning a decrypted
//! payload into candidate addresses.

use vstd::prelude::*;
use crate::hks::{PublishedBlob, ShadowInvite, ShadowInviteV, TrackedInvite, TrackedInviteV};
use crate::text::str_eq;
use vstd::string::StrSliceExecFns;
use vstd::string::StringExecFns;

verus! {

/// How long an invitation or shadow lives, in seconds.
pub const INVITE_TTL_SECS: u64 = 120;

/// Whether an entry created at `created_at` is still alive at `now`.
pub open spec fn alive_at(created_at: u64, now: u64) -> bool {
    now - created_at < INVITE_TTL_SECS
}

/// Evict expired invitations from a blob: afterwards the invitations are
/// exactly the previously held ones whose age at `now` is under the TTL,
/// in order; nothing else changes.
pub fn clean_expired_invitations(blob: &mut PublishedBlob, now: u64)
    ensures
        final(blob)@.invitations == old(blob)@.invitations.filter(
            (|t: TrackedInviteV| now - t.created_at < INVITE_TTL_SECS),
        ),
        final(blob)@ == (crate::hks::PublishedBlobV {
            invitations: final(blob)@.invitations,
            ..old(blob)@
        }),
{
    let ghost pred = |t: TrackedInviteV| now - t.created_at < INVITE_TTL_SECS;
    let mut kept: Vec<TrackedInvite> = Vec::new();
    let n = blob.invitations.len();
    let mut i: usize = 0;
    proof {
        reveal_with_fuel(Seq::filter, 2);
        assert(old(blob)@.invitations.take(0).filter(pred) =~= Seq::<TrackedInviteV>::empty());
    }
    while i < n
        invariant
            n == blob.invitations@.len(),
            blob == old(blob),
            pred == (|t: TrackedInviteV| now - t.created_at < INVITE_TTL_SECS),
            i <= n,
            kept@.map_values(|t: TrackedInvite| t@) == old(blob)@.invitations.take(
                i as int,
            ).filter(pred),
        decreases n - i,
    {
        let ghost taken = old(blob)@.invitations.take(i as int);
        let ghost cur = old(blob)@.invitations[i as int];
        proof {
            reveal_with_fuel(Seq::filter, 2);
            assert(old(blob)@.invitations.take(i + 1) =~= taken.push(cur));
            Seq::filter_distributes_over_add(taken, seq![cur], pred);
            assert(taken + seq![cur] =~= taken.push(cur));
            assert(seq![cur].drop_last() =~= Seq::<TrackedInviteV>::empty());
            assert(seq![cur].last() == cur);
            assert(Seq::<TrackedInviteV>::empty().filter(pred) =~= Seq::<
                TrackedInviteV,
            >::empty());
            if pred(cur) {
                assert(seq![cur].filter(pred) =~= seq![cur]);
            } else {
                assert(seq![cur].filter(pred) =~= Seq::<TrackedInviteV>::empty());
            }
            assert(old(blob)@.invitations[i as int] == blob.invitations@[i as int]@);
        }
        let t = &blob.invitations[i];
        let fresh = match now.checked_sub(t.created_at) {
            Some(age) => age < INVITE_TTL_SECS,
            None => true,
        };
        if fresh {
            kept.push(
                TrackedInvite {
                    salt: t.salt.clone(),
                    nonce: t.nonce.clone(),
                    ciphertext: t.ciphertext.clone(),
                    created_at: t.created_at,
                },
            );
            proof {
                assert(kept@.map_values(|t: TrackedInvite| t@) =~= old(
                    blob,
                )@.invitations.take(i + 1).filter(pred));
            }
        } else {
            proof {
                assert(!pred(cur));
                assert(kept@.map_values(|t: TrackedInvite| t@) =~= old(
                    blob,
                )@.invitations.take(i + 1).filter(pred));
            }
        }
        i += 1;
    }
    proof {
        assert(old(blob)@.invitations.take(n as int) =~= old(blob)@.invitations);
    }
    blob.invitations = kept;
}

/// Evict expired shadows from a blob, exactly like the invitations.
pub fn clean_expired_shadows(blob: &mut PublishedBlob, now: u64)
    ensures
        final(blob)@.shadow_invites == old(blob)@.shadow_invites.filter(
            (|t: ShadowInviteV| now - t.created_at < INVITE_TTL_SECS),
        ),
        final(blob)@ == (crate::hks::PublishedBlobV {
            shadow_invites: final(blob)@.shadow_invites,
            ..old(blob)@
        }),
{
    let ghost pred = |t: ShadowInviteV| now - t.created_at < INVITE_TTL_SECS;
    let mut kept: Vec<ShadowInvite> = Vec::new();
    let n = blob.shadow_invites.len();
    let mut i: usize = 0;
    proof {
        reveal_with_fuel(Seq::filter, 2);
        assert(old(blob)@.shadow_invites.take(0).filter(pred) =~= Seq::<ShadowInviteV>::empty());
    }
    while i < n
        invariant
            n == blob.shadow_invites@.len(),
            blob == old(blob),
            pred == (|t: ShadowInviteV| now - t.created_at < INVITE_TTL_SECS),
            i <= n,
            kept@.map_values(|t: ShadowInvite| t@) == old(blob)@.shadow_invites.take(
                i as int,
            ).filter(pred),
        decreases n - i,
    {
        let ghost taken = old(blob)@.shadow_invites.take(i as int);
        let ghost cur = old(blob)@.shadow_invites[i as int];
        proof {
            reveal_with_fuel(Seq::filter, 2);
            assert(old(blob)@.shadow_invites.take(i + 1) =~= taken.push(cur));
            Seq::filter_distributes_over_add(taken, seq![cur], pred);
            assert(taken + seq![cur] =~= taken.push(cur));
            assert(seq![cur].drop_last() =~= Seq::<ShadowInviteV>::empty());
            assert(seq![cur].last() == cur);
            assert(Seq::<ShadowInviteV>::empty().filter(pred) =~= Seq::<ShadowInviteV>::empty());
            if pred(cur) {
                assert(seq![cur].filter(pred) =~= seq![cur]);
            } else {
                assert(seq![cur].filter(pred) =~= Seq::<ShadowInviteV>::empty());
            }
            assert(old(blob)@.shadow_invites[i as int] == blob.shadow_invites@[i as int]@);
        }
        let t = &blob.shadow_invites[i];
        let fresh = match now.checked_sub(t.created_at) {
            Some(age) => age < INVITE_TTL_SECS,
            None => true,
        };
        if fresh {
            kept.push(
                ShadowInvite {
                    target_username: t.target_username.clone(),
                    salt: t.salt.clone(),
                    nonce: t.nonce.clone(),
                    ciphertext: t.ciphertext.clone(),
                    created_at: t.created_at,
                },
            );
            proof {
                assert(kept@.map_values(|t: ShadowInvite| t@) =~= old(
                    blob,
                )@.shadow_invites.take(i + 1).filter(pred));
            }
        } else {
            proof {
                assert(!pred(cur));
                assert(kept@.map_values(|t: ShadowInvite| t@) =~= old(
                    blob,
                )@.shadow_invites.take(i + 1).filter(pred));
            }
        }
        i += 1;
    }
    proof {
        assert(old(blob)@.shadow_invites.take(n as int) =~= old(blob)@.shadow_invites);
    }
    blob.shadow_invites = kept;
}

/// Insert or replace the shadow for a target: entries for other targets
/// stay in order, the new shadow goes to the end.
pub fn upsert_shadow(blob: &mut PublishedBlob, shadow: ShadowInvite)
    ensures
        final(blob)@.shadow_invites == old(blob)@.shadow_invites.filter(
            (|t: ShadowInviteV| t.target_username != shadow.target_username@),
        ).push(shadow@),
        final(blob)@ == (crate::hks::PublishedBlobV {
            shadow_invites: final(blob)@.shadow_invites,
            ..old(blob)@
        }),
{
    let ghost pred = |t: ShadowInviteV| t.target_username != shadow.target_username@;
    let mut kept: Vec<ShadowInvite> = Vec::new();
    let n = blob.shadow_invites.len();
    let mut i: usize = 0;
    proof {
        reveal_with_fuel(Seq::filter, 2);
        assert(old(blob)@.shadow_invites.take(0).filter(pred) =~= Seq::<ShadowInviteV>::empty());
    }
    while i < n
        invariant
            n == blob.shadow_invites@.len(),
            blob == old(blob),
            pred == (|t: ShadowInviteV| t.target_username != shadow.target_username@),
            i <= n,
            kept@.map_values(|t: ShadowInvite| t@) == old(blob)@.shadow_invites.take(
                i as int,
            ).filter(pred),
        decreases n - i,
    {
        let ghost taken = old(blob)@.shadow_invites.take(i as int);
        let ghost cur = old(blob)@.shadow_invites[i as int];
        proof {
            reveal_with_fuel(Seq::filter, 2);
            assert(old(blob)@.shadow_invites.take(i + 1) =~= taken.push(cur));
            Seq::filter_distributes_over_add(taken, seq![cur], pred);
            assert(taken + seq![cur] =~= taken.push(cur));
            assert(seq![cur].drop_last() =~= Seq::<ShadowInviteV>::empty());
            assert(seq![cur].last() == cur);
            assert(Seq::<ShadowInviteV>::empty().filter(pred) =~= Seq::<ShadowInviteV>::empty());
            if pred(cur) {
                assert(seq![cur].filter(pred) =~= seq![cur]);
            } else {
                assert(seq![cur].filter(pred) =~= Seq::<ShadowInviteV>::empty());
            }
            assert(old(blob)@.shadow_invites[i as int] == blob.shadow_invites@[i as int]@);
        }
        let t = &blob.shadow_invites[i];
        if !str_eq(t.target_username.as_str(), shadow.target_username.as_str()) {
            kept.push(
                ShadowInvite {
                    target_username: t.target_username.clone(),
                    salt: t.salt.clone(),
                    nonce: t.nonce.clone(),
                    ciphertext: t.ciphertext.clone(),
                    created_at: t.created_at,
                },
            );
            proof {
                assert(kept@.map_values(|t: ShadowInvite| t@) =~= old(
                    blob,
                )@.shadow_invites.take(i + 1).filter(pred));
            }
        } else {
            proof {
                assert(!pred(cur));
                assert(kept@.map_values(|t: ShadowInvite| t@) =~= old(
                    blob,
                )@.shadow_invites.take(i + 1).filter(pred));
            }
        }
        i += 1;
    }
    proof {
        assert(old(blob)@.shadow_invites.take(n as int) =~= old(blob)@.shadow_invites);
    }
    kept.push(shadow);
    proof {
        assert(kept@.map_values(|t: ShadowInvite| t@) =~= old(blob)@.shadow_invites.filter(
            pred,
        ).push(kept@.last()@));
    }
    blob.shadow_invites = kept;
}

/// Scan from `from` with the piece gathered so far: a separator or the
/// end flushes the piece, trimmed, dropping it when nothing is left.
pub open spec fn split_acc(s: Seq<char>, from: int, sep: char, cur: Seq<char>) -> Seq<Seq<char>>
    decreases s.len() - from,
{
    let piece = crate::text::trim_of(cur);
    if from < 0 || from >= s.len() {
        if piece.len() > 0 {
            seq![piece]
        } else {
            Seq::<Seq<char>>::empty()
        }
    } else if s[from] == sep {
        (if piece.len() > 0 {
            seq![piece]
        } else {
            Seq::<Seq<char>>::empty()
        }) + split_acc(s, from + 1, sep, Seq::<char>::empty())
    } else {
        split_acc(s, from + 1, sep, cur.push(s[from]))
    }
}

/// The nonempty trimmed fields of a separated string, in order.
pub open spec fn split_fields(s: Seq<char>, sep: char) -> Seq<Seq<char>> {
    split_acc(s, 0, sep, Seq::<char>::empty())
}

/// Split on a separator, trim each field, and drop the empty ones:
/// exactly `split_fields`.
pub fn split_nonempty_trimmed(s: &str, sep: char) -> (r: Vec<String>)
    ensures
        crate::store::string_views(r@) == split_fields(s@, sep),
{
    let n = s.unicode_len();
    let mut out: Vec<String> = Vec::new();
    let mut cur = String::new();
    let mut i: usize = 0;
    proof {
        assert(crate::store::string_views(out@) =~= Seq::<Seq<char>>::empty());
        assert(cur@ =~= Seq::<char>::empty());
    }
    while i < n
        invariant
            n == s@.len(),
            i <= n,
            split_fields(s@, sep) == crate::store::string_views(out@) + split_acc(
                s@,
                i as int,
                sep,
                cur@,
            ),
        decreases n - i,
    {
        let c = s.get_char(i);
        if c == sep {
            let ghost out0 = out@;
            let piece = cur.trim();
            if piece.unicode_len() > 0 {
                out.push(piece.to_owned());
                proof {
                    assert(crate::store::string_views(out@) =~= crate::store::string_views(
                        out0,
                    ).push(crate::text::trim_of(cur@)));
                }
            }
            cur = String::new();
            proof {
                assert(cur@ =~= Seq::<char>::empty());
                assert(split_fields(s@, sep) =~= crate::store::string_views(out@) + split_acc(
                    s@,
                    i + 1,
                    sep,
                    cur@,
                ));
            }
        } else {
            cur.push(c);
        }
        i += 1;
    }
    let ghost out0 = out@;
    let piece = cur.trim();
    if piece.unicode_len() > 0 {
        out.push(piece.to_owned());
        proof {
            assert(crate::store::string_views(out@) =~= crate::store::string_views(out0).push(
                crate::text::trim_of(cur@),
            ));
        }
    }
    proof {
        assert(split_fields(s@, sep) =~= crate::store::string_views(out@));
    }
    out
}

/// The candidate addresses in a decrypted directory payload: its lines,
/// trimmed, empty ones dropped, in order.
pub fn payload_to_addresses(payload: &str) -> (r: Vec<String>)
    ensures
        crate::store::string_views(r@) == split_fields(payload@, '\n'),
{
    split_nonempty_trimmed(payload, '\n')
}

/// The message ids named by a read receipt: the comma-separated list,
/// trimmed, empty entries dropped, in order.
pub fn parse_id_list(ids: &str) -> (r: Vec<String>)
    ensures
        crate::store::string_views(r@) == split_fields(ids@, ','),
{
    split_nonempty_trimmed(ids, ',')
}

} // verus!
