//! Rows read from the database, and helpers for building statements.
use vstd::prelude::*;

use crate::text::{dec, join, push_dec, push_char};

verus! {

/// A stored chunk of a session: its position and text.
#[derive(Debug, PartialEq, Eq)]
pub struct SeqText {
    pub seq: i64,
    pub text: String,
}

/// A stored note: its identifier, path and number of chunks.
#[derive(Debug, PartialEq, Eq)]
pub struct NoteRef {
    pub id: String,
    pub path: String,
    pub chunk_count: i64,
}

/// A note chunk found by a knowledge search, with the note it belongs to.
#[derive(Debug, PartialEq, Eq)]
pub struct NoteHit {
    pub chunk_id: String,
    pub path: String,
    pub title: String,
    pub project: String,
    pub updated_at: i64,
    pub text: String,
}

/// A session chunk found by a search, with its session's project and end time.
#[derive(Debug, PartialEq, Eq)]
pub struct ChunkHydration {
    pub id: String,
    pub session_id: String,
    pub text: String,
    pub project: String,
    pub ended_at: i64,
}

/// The result of a `COUNT(*)` query.
#[derive(Debug, PartialEq, Eq)]
pub struct CountRow {
    pub n: i64,
}

/// The numbered SQL placeholders `?1, ?2, ..., ?count`.
pub open spec fn placeholders_of(count: nat) -> Seq<char> {
    join(Seq::new(count, |i: int| seq!['?'] + dec((i + 1) as nat)), seq![',', ' '])
}

/// The numbered SQL placeholders `?1, ?2, ..., ?count`.
pub fn placeholders(count: usize) -> (res: String)
    ensures
        res@ == placeholders_of(count as nat),
{
    let mut s = String::new();
    let mut i: usize = 0;
    let ghost sep = seq![',', ' '];
    while i < count
        invariant
            i <= count,
            sep == seq![',', ' '],
            s@ == join(Seq::new(i as nat, |k: int| seq!['?'] + dec((k + 1) as nat)), sep),
        decreases count - i,
    {
        let ghost parts = Seq::new(i as nat, |k: int| seq!['?'] + dec((k + 1) as nat));
        let ghost next = Seq::new((i + 1) as nat, |k: int| seq!['?'] + dec((k + 1) as nat));
        proof {
            crate::text::lemma_join_push(parts, sep, seq!['?'] + dec((i + 1) as nat));
            assert(next =~= parts.push(seq!['?'] + dec((i + 1) as nat)));
        }
        let ghost s0 = s@;
        if i > 0 {
            push_char(&mut s, ',');
            push_char(&mut s, ' ');
            assert(s@ =~= s0 + sep);
        }
        let ghost s1 = s@;
        push_char(&mut s, '?');
        let num: u64 = (i + 1) as u64;
        assert(num as nat == (i + 1) as nat);
        push_dec(&mut s, num);
        assert(s@ =~= s1 + (seq!['?'] + dec((i + 1) as nat)));
        proof {
            if i > 0 {
                assert(s@ =~= join(parts, sep) + sep + (seq!['?'] + dec((i + 1) as nat)));
            } else {
                assert(s@ =~= seq!['?'] + dec((i + 1) as nat));
            }
        }
        i = i + 1;
    }
    s
}

} // verus!
