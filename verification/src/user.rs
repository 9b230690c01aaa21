//! User profile intelligence (bot-token tier): badges and request checks.
use vstd::prelude::*;

use crate::api::{
    api_error_of, ensure_success, is_success, numeric_id, numeric_id_of, ApiError, DiscordError,
};
use crate::text::{
    chars_of, decimal, filled_rows, hex, hex_string, join, join_strs, labels_distinct,
    lemma_shows_filled_at, opt_text, opt_view, shows_filled,
    push_decimal, retain_filled, row, trim, trim_chars, zero_pad,
};

verus! {

/// Discord `public_flags` bits and the badge each stands for, in the order
/// badges are listed.
pub open spec fn public_flag_table() -> Seq<(u64, Seq<char>)> {
    seq![
        (1u64, "Discord Staff"@),
        (2u64, "Partner"@),
        (4u64, "HypeSquad Events"@),
        (8u64, "Bug Hunter Level 1"@),
        (64u64, "HypeSquad Bravery"@),
        (128u64, "HypeSquad Brilliance"@),
        (256u64, "HypeSquad Balance"@),
        (512u64, "Early Supporter"@),
        (1024u64, "Team User"@),
        (16384u64, "Bug Hunter Level 2"@),
        (65536u64, "Verified Bot"@),
        (131072u64, "Early Verified Bot Developer"@),
        (262144u64, "Moderator Programs Alumni"@),
        (524288u64, "Bot HTTP Interactions"@),
        (4194304u64, "Active Developer"@),
    ]
}

/// Every bit that names a badge.
pub open spec fn known_flags() -> u64 {
    0x4F_47CF
}

/// The badges of `table` whose bit is set in `flags`, in table order.
pub open spec fn badges_in(table: Seq<(u64, Seq<char>)>, flags: u64) -> Seq<Seq<char>>
    decreases table.len(),
{
    if table.len() == 0 {
        Seq::empty()
    } else {
        let rest = badges_in(table.drop_last(), flags);
        if flags & table.last().0 != 0 {
            rest.push(table.last().1)
        } else {
            rest
        }
    }
}

pub open spec fn badges_of(flags: u64) -> Seq<Seq<char>> {
    badges_in(public_flag_table(), flags)
}

/// The `public_flags` bits and their badge names, in listing order.
pub fn public_flags() -> (t: [(u64, &'static str); 15])
    ensures
        t@.map_values(|e: (u64, &str)| (e.0, e.1@)) == public_flag_table(),
{
    let table: [(u64, &'static str); 15] = [
        (1u64 << 0, "Discord Staff"),
        (1u64 << 1, "Partner"),
        (1u64 << 2, "HypeSquad Events"),
        (1u64 << 3, "Bug Hunter Level 1"),
        (1u64 << 6, "HypeSquad Bravery"),
        (1u64 << 7, "HypeSquad Brilliance"),
        (1u64 << 8, "HypeSquad Balance"),
        (1u64 << 9, "Early Supporter"),
        (1u64 << 10, "Team User"),
        (1u64 << 14, "Bug Hunter Level 2"),
        (1u64 << 16, "Verified Bot"),
        (1u64 << 17, "Early Verified Bot Developer"),
        (1u64 << 18, "Moderator Programs Alumni"),
        (1u64 << 19, "Bot HTTP Interactions"),
        (1u64 << 22, "Active Developer"),
    ];
    assert(1u64 << 0 == 1u64 && 1u64 << 1 == 2u64 && 1u64 << 2 == 4u64 && 1u64 << 3 == 8u64
        && 1u64 << 6 == 64u64 && 1u64 << 7 == 128u64 && 1u64 << 8 == 256u64 && 1u64 << 9
        == 512u64 && 1u64 << 10 == 1024u64 && 1u64 << 14 == 16384u64 && 1u64 << 16 == 65536u64
        && 1u64 << 17 == 131072u64 && 1u64 << 18 == 262144u64 && 1u64 << 19 == 524288u64
        && 1u64 << 22 == 4194304u64) by (bit_vector);
    assert(table@.map_values(|e: (u64, &str)| (e.0, e.1@)) =~= public_flag_table());
    table
}

/// Decode `public_flags` into badge names.
pub fn decode_public_flags(flags: u64) -> (r: Vec<&'static str>)
    ensures
        r@.map_values(|s: &str| s@) == badges_of(flags),
{
    let table = public_flags();
    let ghost spec_table = table@.map_values(|e: (u64, &str)| (e.0, e.1@));
    let mut r: Vec<&'static str> = Vec::new();
    let mut i: usize = 0;
    while i < 15
        invariant
            i <= 15,
            table@.len() == 15,
            spec_table == table@.map_values(|e: (u64, &str)| (e.0, e.1@)),
            spec_table == public_flag_table(),
            r@.map_values(|s: &str| s@) == badges_in(spec_table.take(i as int), flags),
        decreases 15 - i,
    {
        let (bit, name) = table[i];
        assert(spec_table.take(i + 1).drop_last() =~= spec_table.take(i as int));
        assert(spec_table.take(i + 1).last() == (bit, name@));
        let ghost before = r@;
        if flags & bit != 0 {
            r.push(name);
            assert(r@.map_values(|s: &str| s@) =~= before.map_values(|s: &str| s@).push(name@));
        }
        i += 1;
    }
    assert(spec_table.take(15) =~= spec_table);
    r
}

proof fn lemma_badges_ignore_unknown(table: Seq<(u64, Seq<char>)>, flags: u64)
    requires
        forall|i: int| 0 <= i < table.len() ==> #[trigger] table[i].0 & known_flags() == table[i].0,
    ensures
        badges_in(table, flags) == badges_in(table, flags & known_flags()),
    decreases table.len(),
{
    if table.len() > 0 {
        let t = table.drop_last();
        assert forall|i: int| 0 <= i < t.len() implies #[trigger] t[i].0 & known_flags()
            == t[i].0 by {
            assert(t[i] == table[i]);
        }
        lemma_badges_ignore_unknown(t, flags);
        let b = table.last().0;
        assert(table[table.len() - 1].0 & known_flags() == table[table.len() - 1].0);
        assert(b & 0x4F_47CF == b ==> ((flags & b != 0) == ((flags & 0x4F_47CF) & b != 0)))
            by (bit_vector);
    }
}

/// Bits that name no badge are ignored: the badges of `flags` are those of
/// its known bits alone.
pub proof fn lemma_unknown_flags_ignored(flags: u64)
    ensures
        badges_of(flags) == badges_of(flags & known_flags()),
{
    let table = public_flag_table();
    assert forall|i: int| 0 <= i < table.len() implies #[trigger] table[i].0 & known_flags()
        == table[i].0 by {
        assert(1u64 & 0x4F_47CF == 1u64 && 2u64 & 0x4F_47CF == 2u64 && 4u64 & 0x4F_47CF == 4u64
            && 8u64 & 0x4F_47CF == 8u64 && 64u64 & 0x4F_47CF == 64u64 && 128u64 & 0x4F_47CF
            == 128u64 && 256u64 & 0x4F_47CF == 256u64 && 512u64 & 0x4F_47CF == 512u64 && 1024u64
            & 0x4F_47CF == 1024u64 && 16384u64 & 0x4F_47CF == 16384u64 && 65536u64 & 0x4F_47CF
            == 65536u64 && 131072u64 & 0x4F_47CF == 131072u64 && 262144u64 & 0x4F_47CF
            == 262144u64 && 524288u64 & 0x4F_47CF == 524288u64 && 4194304u64 & 0x4F_47CF
            == 4194304u64) by (bit_vector);
    }
    lemma_badges_ignore_unknown(table, flags);
}

/// Every listed bit decodes: the flags with all known bits set give all
/// fifteen badges, in table order.
pub proof fn lemma_all_known_flags_decode()
    ensures
        badges_of(known_flags()) == public_flag_table().map_values(|e: (u64, Seq<char>)| e.1),
        badges_of(known_flags()).len() == 15,
{
    let table = public_flag_table();
    assert(0x4F_47CFu64 & 1u64 != 0 && 0x4F_47CFu64 & 2u64 != 0 && 0x4F_47CFu64 & 4u64 != 0
        && 0x4F_47CFu64 & 8u64 != 0 && 0x4F_47CFu64 & 64u64 != 0 && 0x4F_47CFu64 & 128u64 != 0
        && 0x4F_47CFu64 & 256u64 != 0 && 0x4F_47CFu64 & 512u64 != 0 && 0x4F_47CFu64 & 1024u64
        != 0 && 0x4F_47CFu64 & 16384u64 != 0 && 0x4F_47CFu64 & 65536u64 != 0 && 0x4F_47CFu64
        & 131072u64 != 0 && 0x4F_47CFu64 & 262144u64 != 0 && 0x4F_47CFu64 & 524288u64 != 0
        && 0x4F_47CFu64 & 4194304u64 != 0) by (bit_vector);
    lemma_all_set_keeps_all(table, known_flags());
}

proof fn lemma_all_set_keeps_all(table: Seq<(u64, Seq<char>)>, flags: u64)
    requires
        forall|i: int| 0 <= i < table.len() ==> flags & (#[trigger] table[i]).0 != 0,
    ensures
        badges_in(table, flags) == table.map_values(|e: (u64, Seq<char>)| e.1),
    decreases table.len(),
{
    if table.len() > 0 {
        let t = table.drop_last();
        assert forall|i: int| 0 <= i < t.len() implies flags & (#[trigger] t[i]).0 != 0 by {
            assert(t[i] == table[i]);
        }
        lemma_all_set_keeps_all(t, flags);
        assert(flags & table[table.len() - 1].0 != 0);
        assert(table.map_values(|e: (u64, Seq<char>)| e.1) =~= t.map_values(
            |e: (u64, Seq<char>)| e.1,
        ).push(table.last().1));
    } else {
        assert(table.map_values(|e: (u64, Seq<char>)| e.1) =~= Seq::<Seq<char>>::empty());
    }
}

/// The number of bits set in `x`.
pub open spec fn bit_count(x: u64) -> nat
    decreases x,
{
    if x == 0 {
        0
    } else {
        proof {
            assert(x != 0 ==> x & ((x - 1) as u64) < x) by (bit_vector);
        }
        1 + bit_count(x & ((x - 1) as u64))
    }
}

/// The union of the bits of `table`.
pub open spec fn mask_of(table: Seq<(u64, Seq<char>)>) -> u64
    decreases table.len(),
{
    if table.len() == 0 {
        0
    } else {
        mask_of(table.drop_last()) | table.last().0
    }
}

/// Whether `b` has exactly one bit set.
pub open spec fn is_single_bit(b: u64) -> bool {
    b != 0 && b & ((b - 1) as u64) == 0
}

/// Each bit of `table` is a single bit, and the bits grow along the table.
pub open spec fn ascending_single_bits(table: Seq<(u64, Seq<char>)>) -> bool {
    &&& forall|i: int| 0 <= i < table.len() ==> is_single_bit(#[trigger] table[i].0)
    &&& forall|i: int, j: int| 0 <= i < j < table.len() ==> table[i].0 < table[j].0
}

/// No two entries of `table` share a name.
pub open spec fn distinct_names(table: Seq<(u64, Seq<char>)>) -> bool {
    forall|i: int, j: int| 0 <= i < j < table.len() ==> table[i].1 != table[j].1
}

proof fn lemma_flag_table_shape()
    ensures
        ascending_single_bits(public_flag_table()),
        mask_of(public_flag_table()) == known_flags(),
{
    let t = public_flag_table();
    assert(1u64 & 0u64 == 0u64 && 2u64 & 1u64 == 0u64 && 4u64 & 3u64 == 0u64 && 8u64 & 7u64
        == 0u64 && 64u64 & 63u64 == 0u64 && 128u64 & 127u64 == 0u64 && 256u64 & 255u64 == 0u64
        && 512u64 & 511u64 == 0u64 && 1024u64 & 1023u64 == 0u64 && 16384u64 & 16383u64 == 0u64
        && 65536u64 & 65535u64 == 0u64 && 131072u64 & 131071u64 == 0u64 && 262144u64 & 262143u64
        == 0u64 && 524288u64 & 524287u64 == 0u64 && 4194304u64 & 4194303u64 == 0u64)
        by (bit_vector);
    assert(t.take(0).len() == 0);
    assert(t.take(1).drop_last() =~= t.take(0) && t.take(1).last() == t[0]);
    assert(t.take(2).drop_last() =~= t.take(1) && t.take(2).last() == t[1]);
    assert(t.take(3).drop_last() =~= t.take(2) && t.take(3).last() == t[2]);
    assert(t.take(4).drop_last() =~= t.take(3) && t.take(4).last() == t[3]);
    assert(t.take(5).drop_last() =~= t.take(4) && t.take(5).last() == t[4]);
    assert(t.take(6).drop_last() =~= t.take(5) && t.take(6).last() == t[5]);
    assert(t.take(7).drop_last() =~= t.take(6) && t.take(7).last() == t[6]);
    assert(t.take(8).drop_last() =~= t.take(7) && t.take(8).last() == t[7]);
    assert(t.take(9).drop_last() =~= t.take(8) && t.take(9).last() == t[8]);
    assert(t.take(10).drop_last() =~= t.take(9) && t.take(10).last() == t[9]);
    assert(t.take(11).drop_last() =~= t.take(10) && t.take(11).last() == t[10]);
    assert(t.take(12).drop_last() =~= t.take(11) && t.take(12).last() == t[11]);
    assert(t.take(13).drop_last() =~= t.take(12) && t.take(13).last() == t[12]);
    assert(t.take(14).drop_last() =~= t.take(13) && t.take(14).last() == t[13]);
    assert(t.take(15).drop_last() =~= t.take(14) && t.take(15).last() == t[14]);
    let m0 = mask_of(t.take(0));
    let m1 = mask_of(t.take(1));
    let m2 = mask_of(t.take(2));
    let m3 = mask_of(t.take(3));
    let m4 = mask_of(t.take(4));
    let m5 = mask_of(t.take(5));
    let m6 = mask_of(t.take(6));
    let m7 = mask_of(t.take(7));
    let m8 = mask_of(t.take(8));
    let m9 = mask_of(t.take(9));
    let m10 = mask_of(t.take(10));
    let m11 = mask_of(t.take(11));
    let m12 = mask_of(t.take(12));
    let m13 = mask_of(t.take(13));
    let m14 = mask_of(t.take(14));
    let m15 = mask_of(t.take(15));
    assert(t.take(15) =~= t);
    assert(m15 == 0x4F_47CFu64) by (bit_vector)
        requires
            m0 == 0u64,
            m1 == m0 | 1u64,
            m2 == m1 | 2u64,
            m3 == m2 | 4u64,
            m4 == m3 | 8u64,
            m5 == m4 | 64u64,
            m6 == m5 | 128u64,
            m7 == m6 | 256u64,
            m8 == m7 | 512u64,
            m9 == m8 | 1024u64,
            m10 == m9 | 16384u64,
            m11 == m10 | 65536u64,
            m12 == m11 | 131072u64,
            m13 == m12 | 262144u64,
            m14 == m13 | 524288u64,
            m15 == m14 | 4194304u64,
    ;
}

proof fn lemma_mask_below(table: Seq<(u64, Seq<char>)>, b: u64)
    requires
        is_single_bit(b),
        forall|i: int| 0 <= i < table.len() ==> #[trigger] table[i].0 < b,
    ensures
        mask_of(table) < b,
    decreases table.len(),
{
    if table.len() > 0 {
        let t = table.drop_last();
        assert forall|i: int| 0 <= i < t.len() implies #[trigger] t[i].0 < b by {
            assert(t[i] == table[i]);
        }
        lemma_mask_below(t, b);
        let m = mask_of(t);
        let y = table[table.len() - 1].0;
        assert(m < b && y < b && b != 0 && b & ((b - 1) as u64) == 0 ==> m | y < b)
            by (bit_vector);
    }
}

/// Setting a single bit above all bits of `y` adds one to its bit count.
proof fn lemma_count_add_top_bit(y: u64, b: u64)
    requires
        is_single_bit(b),
        y < b,
    ensures
        bit_count(y | b) == bit_count(y) + 1,
    decreases y,
{
    if y == 0 {
        assert(y == 0 ==> y | b == b) by (bit_vector);
        assert(bit_count(0) == 0);
    } else {
        let z = y & ((y - 1) as u64);
        assert((y | b) != 0 && z < y && (y | b) & (((y | b) - 1) as u64) == z | b) by (bit_vector)
            requires
                y != 0,
                y < b,
                b != 0,
                b & ((b - 1) as u64) == 0,
                z == y & ((y - 1) as u64),
        ;
        lemma_count_add_top_bit(z, b);
    }
}

proof fn lemma_badges_count(table: Seq<(u64, Seq<char>)>, flags: u64)
    requires
        ascending_single_bits(table),
    ensures
        badges_in(table, flags).len() == bit_count(flags & mask_of(table)),
    decreases table.len(),
{
    if table.len() == 0 {
        assert(flags & 0u64 == 0u64) by (bit_vector);
    } else {
        let t = table.drop_last();
        assert forall|i: int| 0 <= i < t.len() implies is_single_bit(#[trigger] t[i].0) by {
            assert(t[i] == table[i]);
        }
        assert forall|i: int, j: int| 0 <= i < j < t.len() implies t[i].0 < t[j].0 by {
            assert(t[i] == table[i] && t[j] == table[j]);
        }
        lemma_badges_count(t, flags);
        let b = table[table.len() - 1].0;
        assert(is_single_bit(b));
        assert forall|i: int| 0 <= i < t.len() implies #[trigger] t[i].0 < b by {
            assert(t[i] == table[i]);
        }
        lemma_mask_below(t, b);
        let m = mask_of(t);
        assert(m < b && b != 0 && b & ((b - 1) as u64) == 0 ==> (flags & (m | b)) == ((flags
            & m) | (flags & b)) && (flags & m) < b && (flags & b != 0 ==> flags & b == b) && (
        flags & b == 0 ==> (flags & m) | (flags & b) == flags & m)) by (bit_vector);
        if flags & b != 0 {
            lemma_count_add_top_bit(flags & m, b);
        }
    }
}

proof fn lemma_badge_member(table: Seq<(u64, Seq<char>)>, flags: u64, x: Seq<char>)
    ensures
        badges_in(table, flags).contains(x) <==> exists|i: int|
            0 <= i < table.len() && table[i].1 == x && flags & #[trigger] table[i].0 != 0,
    decreases table.len(),
{
    if table.len() > 0 {
        let t = table.drop_last();
        let n = table.len() - 1;
        lemma_badge_member(t, flags, x);
        let rest = badges_in(t, flags);
        let r = badges_in(table, flags);
        if r.contains(x) {
            let k = choose|k: int| 0 <= k < r.len() && r[k] == x;
            if k < rest.len() {
                assert(rest[k] == x);
                let i = choose|i: int|
                    0 <= i < t.len() && t[i].1 == x && flags & #[trigger] t[i].0 != 0;
                assert(table[i] == t[i]);
            } else {
                assert(table[n].1 == x && flags & table[n].0 != 0);
            }
        }
        if exists|i: int| 0 <= i < table.len() && table[i].1 == x && flags & #[trigger] table[i].0
            != 0 {
            let i = choose|i: int|
                0 <= i < table.len() && table[i].1 == x && flags & #[trigger] table[i].0 != 0;
            if i == n {
                assert(r[rest.len() as int] == x);
            } else {
                assert(t[i] == table[i]);
                assert(flags & t[i].0 != 0);
                let k = choose|k: int| 0 <= k < rest.len() && rest[k] == x;
                assert(r[k] == x);
            }
        }
    }
}

proof fn lemma_badges_no_duplicates(table: Seq<(u64, Seq<char>)>, flags: u64)
    requires
        distinct_names(table),
    ensures
        badges_in(table, flags).no_duplicates(),
    decreases table.len(),
{
    if table.len() > 0 {
        let t = table.drop_last();
        let n = table.len() - 1;
        assert forall|i: int, j: int| 0 <= i < j < t.len() implies t[i].1 != t[j].1 by {
            assert(t[i] == table[i] && t[j] == table[j]);
        }
        lemma_badges_no_duplicates(t, flags);
        let rest = badges_in(t, flags);
        let name = table[n].1;
        lemma_badge_member(t, flags, name);
        if rest.contains(name) {
            let i = choose|i: int|
                0 <= i < t.len() && t[i].1 == name && flags & #[trigger] t[i].0 != 0;
            assert(t[i] == table[i]);
        }
        assert(!rest.contains(name));
        let r = badges_in(table, flags);
        if flags & table[n].0 != 0 {
            assert forall|i: int, j: int| 0 <= i < r.len() && 0 <= j < r.len() && i != j implies r[i]
                != r[j] by {
                if i == rest.len() {
                    assert(rest[j] == r[j]);
                } else if j == rest.len() {
                    assert(rest[i] == r[i]);
                }
            }
        }
    }
}

/// No two badges of the table share a name.
proof fn lemma_flag_names_distinct()
    ensures
        distinct_names(public_flag_table()),
{
    reveal_strlit("Discord Staff");
    reveal_strlit("Partner");
    reveal_strlit("HypeSquad Events");
    reveal_strlit("Bug Hunter Level 1");
    reveal_strlit("HypeSquad Bravery");
    reveal_strlit("HypeSquad Brilliance");
    reveal_strlit("HypeSquad Balance");
    reveal_strlit("Early Supporter");
    reveal_strlit("Team User");
    reveal_strlit("Bug Hunter Level 2");
    reveal_strlit("Verified Bot");
    reveal_strlit("Early Verified Bot Developer");
    reveal_strlit("Moderator Programs Alumni");
    reveal_strlit("Bot HTTP Interactions");
    reveal_strlit("Active Developer");
    let t = public_flag_table();
    assert forall|i: int, j: int| 0 <= i < j < t.len() implies t[i].1 != t[j].1 by {
        if i == 0 {
            if j == 1 {
                assert(t[0].1.len() != t[1].1.len());
            } else if j == 2 {
                assert(t[0].1.len() != t[2].1.len());
            } else if j == 3 {
                assert(t[0].1.len() != t[3].1.len());
            } else if j == 4 {
                assert(t[0].1.len() != t[4].1.len());
            } else if j == 5 {
                assert(t[0].1.len() != t[5].1.len());
            } else if j == 6 {
                assert(t[0].1.len() != t[6].1.len());
            } else if j == 7 {
                assert(t[0].1.len() != t[7].1.len());
            } else if j == 8 {
                assert(t[0].1.len() != t[8].1.len());
            } else if j == 9 {
                assert(t[0].1.len() != t[9].1.len());
            } else if j == 10 {
                assert(t[0].1.len() != t[10].1.len());
            } else if j == 11 {
                assert(t[0].1.len() != t[11].1.len());
            } else if j == 12 {
                assert(t[0].1.len() != t[12].1.len());
            } else if j == 13 {
                assert(t[0].1.len() != t[13].1.len());
            } else {
                assert(t[0].1.len() != t[14].1.len());
            }
        } else if i == 1 {
            if j == 2 {
                assert(t[1].1.len() != t[2].1.len());
            } else if j == 3 {
                assert(t[1].1.len() != t[3].1.len());
            } else if j == 4 {
                assert(t[1].1.len() != t[4].1.len());
            } else if j == 5 {
                assert(t[1].1.len() != t[5].1.len());
            } else if j == 6 {
                assert(t[1].1.len() != t[6].1.len());
            } else if j == 7 {
                assert(t[1].1.len() != t[7].1.len());
            } else if j == 8 {
                assert(t[1].1.len() != t[8].1.len());
            } else if j == 9 {
                assert(t[1].1.len() != t[9].1.len());
            } else if j == 10 {
                assert(t[1].1.len() != t[10].1.len());
            } else if j == 11 {
                assert(t[1].1.len() != t[11].1.len());
            } else if j == 12 {
                assert(t[1].1.len() != t[12].1.len());
            } else if j == 13 {
                assert(t[1].1.len() != t[13].1.len());
            } else {
                assert(t[1].1.len() != t[14].1.len());
            }
        } else if i == 2 {
            if j == 3 {
                assert(t[2].1.len() != t[3].1.len());
            } else if j == 4 {
                assert(t[2].1.len() != t[4].1.len());
            } else if j == 5 {
                assert(t[2].1.len() != t[5].1.len());
            } else if j == 6 {
                assert(t[2].1.len() != t[6].1.len());
            } else if j == 7 {
                assert(t[2].1.len() != t[7].1.len());
            } else if j == 8 {
                assert(t[2].1.len() != t[8].1.len());
            } else if j == 9 {
                assert(t[2].1.len() != t[9].1.len());
            } else if j == 10 {
                assert(t[2].1.len() != t[10].1.len());
            } else if j == 11 {
                assert(t[2].1.len() != t[11].1.len());
            } else if j == 12 {
                assert(t[2].1.len() != t[12].1.len());
            } else if j == 13 {
                assert(t[2].1.len() != t[13].1.len());
            } else {
                assert(t[2].1[0] != t[14].1[0]);
            }
        } else if i == 3 {
            if j == 4 {
                assert(t[3].1.len() != t[4].1.len());
            } else if j == 5 {
                assert(t[3].1.len() != t[5].1.len());
            } else if j == 6 {
                assert(t[3].1.len() != t[6].1.len());
            } else if j == 7 {
                assert(t[3].1.len() != t[7].1.len());
            } else if j == 8 {
                assert(t[3].1.len() != t[8].1.len());
            } else if j == 9 {
                assert(t[3].1[17] != t[9].1[17]);
            } else if j == 10 {
                assert(t[3].1.len() != t[10].1.len());
            } else if j == 11 {
                assert(t[3].1.len() != t[11].1.len());
            } else if j == 12 {
                assert(t[3].1.len() != t[12].1.len());
            } else if j == 13 {
                assert(t[3].1.len() != t[13].1.len());
            } else {
                assert(t[3].1.len() != t[14].1.len());
            }
        } else if i == 4 {
            if j == 5 {
                assert(t[4].1.len() != t[5].1.len());
            } else if j == 6 {
                assert(t[4].1[11] != t[6].1[11]);
            } else if j == 7 {
                assert(t[4].1.len() != t[7].1.len());
            } else if j == 8 {
                assert(t[4].1.len() != t[8].1.len());
            } else if j == 9 {
                assert(t[4].1.len() != t[9].1.len());
            } else if j == 10 {
                assert(t[4].1.len() != t[10].1.len());
            } else if j == 11 {
                assert(t[4].1.len() != t[11].1.len());
            } else if j == 12 {
                assert(t[4].1.len() != t[12].1.len());
            } else if j == 13 {
                assert(t[4].1.len() != t[13].1.len());
            } else {
                assert(t[4].1.len() != t[14].1.len());
            }
        } else if i == 5 {
            if j == 6 {
                assert(t[5].1.len() != t[6].1.len());
            } else if j == 7 {
                assert(t[5].1.len() != t[7].1.len());
            } else if j == 8 {
                assert(t[5].1.len() != t[8].1.len());
            } else if j == 9 {
                assert(t[5].1.len() != t[9].1.len());
            } else if j == 10 {
                assert(t[5].1.len() != t[10].1.len());
            } else if j == 11 {
                assert(t[5].1.len() != t[11].1.len());
            } else if j == 12 {
                assert(t[5].1.len() != t[12].1.len());
            } else if j == 13 {
                assert(t[5].1.len() != t[13].1.len());
            } else {
                assert(t[5].1.len() != t[14].1.len());
            }
        } else if i == 6 {
            if j == 7 {
                assert(t[6].1.len() != t[7].1.len());
            } else if j == 8 {
                assert(t[6].1.len() != t[8].1.len());
            } else if j == 9 {
                assert(t[6].1.len() != t[9].1.len());
            } else if j == 10 {
                assert(t[6].1.len() != t[10].1.len());
            } else if j == 11 {
                assert(t[6].1.len() != t[11].1.len());
            } else if j == 12 {
                assert(t[6].1.len() != t[12].1.len());
            } else if j == 13 {
                assert(t[6].1.len() != t[13].1.len());
            } else {
                assert(t[6].1.len() != t[14].1.len());
            }
        } else if i == 7 {
            if j == 8 {
                assert(t[7].1.len() != t[8].1.len());
            } else if j == 9 {
                assert(t[7].1.len() != t[9].1.len());
            } else if j == 10 {
                assert(t[7].1.len() != t[10].1.len());
            } else if j == 11 {
                assert(t[7].1.len() != t[11].1.len());
            } else if j == 12 {
                assert(t[7].1.len() != t[12].1.len());
            } else if j == 13 {
                assert(t[7].1.len() != t[13].1.len());
            } else {
                assert(t[7].1.len() != t[14].1.len());
            }
        } else if i == 8 {
            if j == 9 {
                assert(t[8].1.len() != t[9].1.len());
            } else if j == 10 {
                assert(t[8].1.len() != t[10].1.len());
            } else if j == 11 {
                assert(t[8].1.len() != t[11].1.len());
            } else if j == 12 {
                assert(t[8].1.len() != t[12].1.len());
            } else if j == 13 {
                assert(t[8].1.len() != t[13].1.len());
            } else {
                assert(t[8].1.len() != t[14].1.len());
            }
        } else if i == 9 {
            if j == 10 {
                assert(t[9].1.len() != t[10].1.len());
            } else if j == 11 {
                assert(t[9].1.len() != t[11].1.len());
            } else if j == 12 {
                assert(t[9].1.len() != t[12].1.len());
            } else if j == 13 {
                assert(t[9].1.len() != t[13].1.len());
            } else {
                assert(t[9].1.len() != t[14].1.len());
            }
        } else if i == 10 {
            if j == 11 {
                assert(t[10].1.len() != t[11].1.len());
            } else if j == 12 {
                assert(t[10].1.len() != t[12].1.len());
            } else if j == 13 {
                assert(t[10].1.len() != t[13].1.len());
            } else {
                assert(t[10].1.len() != t[14].1.len());
            }
        } else if i == 11 {
            if j == 12 {
                assert(t[11].1.len() != t[12].1.len());
            } else if j == 13 {
                assert(t[11].1.len() != t[13].1.len());
            } else {
                assert(t[11].1.len() != t[14].1.len());
            }
        } else if i == 12 {
            if j == 13 {
                assert(t[12].1.len() != t[13].1.len());
            } else {
                assert(t[12].1.len() != t[14].1.len());
            }
        } else {
            assert(t[13].1.len() != t[14].1.len());
        }
    }
}


/// No badge is listed twice.
pub proof fn lemma_badges_distinct(flags: u64)
    ensures
        badges_of(flags).no_duplicates(),
{
    lemma_flag_names_distinct();
    lemma_badges_no_duplicates(public_flag_table(), flags);
}

/// There is one badge for each known bit set in `flags`.
pub proof fn lemma_badge_count(flags: u64)
    ensures
        badges_of(flags).len() == bit_count(flags & known_flags()),
{
    lemma_flag_table_shape();
    lemma_badges_count(public_flag_table(), flags);
}

/// The badges of `a | b` are those of `a` together with those of `b`.
pub proof fn lemma_badges_of_union(a: u64, b: u64)
    ensures
        badges_of(a | b).to_set() == badges_of(a).to_set().union(badges_of(b).to_set()),
{
    let t = public_flag_table();
    assert forall|x: Seq<char>| #[trigger] badges_of(a | b).contains(x) <==> badges_of(a).contains(
        x) || badges_of(b).contains(x) by {
        lemma_badge_member(t, a | b, x);
        lemma_badge_member(t, a, x);
        lemma_badge_member(t, b, x);
        assert forall|c: u64| #[trigger] ((a | b) & c) != 0 <==> (a & c != 0 || b & c != 0) by {
            assert(((a | b) & c != 0) == (a & c != 0 || b & c != 0)) by (bit_vector);
        }
    }
    assert(badges_of(a | b).to_set() =~= badges_of(a).to_set().union(badges_of(b).to_set()));
}

/// The bot token to use: the configured value, unless it is blank.
pub open spec fn usable_token_of(value: Option<Seq<char>>) -> Option<Seq<char>> {
    match value {
        Some(t) => if trim(t).len() > 0 {
            Some(t)
        } else {
            None
        },
        None => None,
    }
}

/// Keeps a configured token unless it is empty or only whitespace.
pub fn usable_token(value: Option<String>) -> (r: Option<String>)
    ensures
        match r {
            Some(t) => value matches Some(v) && t == v && usable_token_of(Some(v@)) == Some(t@),
            None => match value {
                Some(v) => usable_token_of(Some(v@)) is None,
                None => true,
            },
        },
{
    match value {
        Some(t) => {
            if trim_chars(&chars_of(t.as_str())).len() > 0 {
                Some(t)
            } else {
                None
            }
        },
        None => None,
    }
}

/// Why a user lookup failed.
#[derive(Debug, PartialEq, Eq)]
pub enum UserError {
    /// The user ID is not numeric.
    InvalidId,
    /// No bot token is configured.
    MissingToken,
    /// HTTP 401: the bot token is invalid or revoked.
    Unauthorized,
    /// Any other unsuccessful response.
    Api(ApiError),
}

/// What a user lookup needs before any request: a numeric user ID, then a
/// bot token (`token` is the usable configured token, if any).
pub open spec fn user_request_of(user_id: Seq<char>, token: Option<Seq<char>>) -> Result<
    (Seq<char>, Seq<char>),
    UserError,
> {
    match numeric_id_of(user_id) {
        None => Err(UserError::InvalidId),
        Some(id) => match token {
            None => Err(UserError::MissingToken),
            Some(t) => Ok((id, t)),
        },
    }
}

/// The user ID and the token of a lookup, or why it cannot be made.
pub fn prepare_user_lookup(user_id: &str, token: Option<String>) -> (r: Result<
    (String, String),
    UserError,
>)
    ensures
        match r {
            Ok((id, t)) => user_request_of(
                user_id@,
                match token {
                    Some(t) => Some(t@),
                    None => None,
                },
            ) == Ok::<(Seq<char>, Seq<char>), UserError>((id@, t@)),
            Err(e) => user_request_of(
                user_id@,
                match token {
                    Some(t) => Some(t@),
                    None => None,
                },
            ) == Err::<(Seq<char>, Seq<char>), UserError>(e),
        },
{
    match numeric_id(user_id) {
        None => Err(UserError::InvalidId),
        Some(id) => match token {
            None => Err(UserError::MissingToken),
            Some(t) => Ok((id, t)),
        },
    }
}

pub open spec fn user_check_of(status: u16, body: Option<DiscordError>) -> Result<(), UserError> {
    if status == 401 {
        Err(UserError::Unauthorized)
    } else if is_success(status) {
        Ok(())
    } else {
        Err(UserError::Api(api_error_of(status, body)))
    }
}

/// Check a user-profile response: 401 means the token was refused.
pub fn check_user_response(status: u16, body: Option<DiscordError>) -> (r: Result<(), UserError>)
    ensures
        r == user_check_of(status, body),
{
    if status == 401 {
        return Err(UserError::Unauthorized);
    }
    match ensure_success(status, body) {
        Ok(()) => Ok(()),
        Err(e) => Err(UserError::Api(e)),
    }
}

/// A lookup first needs a numeric user ID, whatever the token, then a bot
/// token; with both it goes ahead with the trimmed ID and the token.
pub proof fn lemma_user_request_order(user_id: Seq<char>, token: Option<Seq<char>>)
    ensures
        numeric_id_of(user_id) is None ==> user_request_of(user_id, token) == Err::<
            (Seq<char>, Seq<char>),
            UserError,
        >(UserError::InvalidId),
        numeric_id_of(user_id) is Some && token is None ==> user_request_of(user_id, token) == Err::<
            (Seq<char>, Seq<char>),
            UserError,
        >(UserError::MissingToken),
        numeric_id_of(user_id) is Some && token is Some ==> user_request_of(user_id, token) == Ok::<
            (Seq<char>, Seq<char>),
            UserError,
        >((trim(user_id), token->0)),
{
}

/// How a profile response is read: 401 means the token was refused, any
/// other 2xx succeeds, and any other failure is an API error with
/// Discord's code and message, or the status.
pub proof fn lemma_user_check_cases(status: u16, body: Option<DiscordError>)
    ensures
        status == 401 ==> user_check_of(status, body) == Err::<(), UserError>(UserError::Unauthorized),
        200 <= status < 300 ==> user_check_of(status, body) == Ok::<(), UserError>(()),
        status != 401 && !(200 <= status < 300) && body is None ==> user_check_of(status, body)
            == Err::<(), UserError>(UserError::Api(ApiError::Status(status))),
        status != 401 && !(200 <= status < 300) && body is Some ==> user_check_of(status, body)
            == Err::<(), UserError>(
            UserError::Api(ApiError::Discord { code: body->0.code, message: body->0.message }),
        ),
{
}

/// A configured token is used exactly when it holds something besides
/// whitespace, and then as it is.
pub proof fn lemma_usable_token(value: Option<Seq<char>>)
    ensures
        value is Some && trim(value->0).len() > 0 ==> usable_token_of(value) == value,
        value is Some && trim(value->0).len() == 0 ==> usable_token_of(value) is None,
        value is None ==> usable_token_of(value) is None,
{
}

// ---------------------------------------------------------------------------
// The profile table
// ---------------------------------------------------------------------------

/// A user's public profile, as the users endpoint tells it.
pub struct UserProfile {
    pub id: Option<String>,
    pub username: Option<String>,
    pub global_name: Option<String>,
    pub discriminator: Option<String>,
    pub avatar: Option<String>,
    pub banner: Option<String>,
    pub accent_color: Option<u64>,
    pub public_flags: Option<u64>,
    pub bot: Option<bool>,
}

/// The CDN URL of an image: `https://cdn.discordapp.com/{kind}/{id}/{hash}.png`.
pub open spec fn cdn_url(kind: Seq<char>, id: Seq<char>, hash: Seq<char>) -> Seq<char> {
    "https://cdn.discordapp.com/"@ + kind + "/"@ + id + "/"@ + hash + ".png"@
}

pub open spec fn avatar_url_of(u: UserProfile) -> Option<Seq<char>> {
    match u.avatar {
        Some(a) => Some(cdn_url("avatars"@, opt_view(u.id), a@)),
        None => None,
    }
}

pub open spec fn banner_url_of(u: UserProfile) -> Option<Seq<char>> {
    match u.banner {
        Some(b) => Some(cdn_url("banners"@, opt_view(u.id), b@)),
        None => None,
    }
}

fn cdn(kind: &str, id: &Option<String>, hash: &String) -> (s: String)
    ensures
        s@ == cdn_url(kind@, opt_view(*id), hash@),
{
    let mut s = String::from_str("https://cdn.discordapp.com/");
    s.append(kind);
    s.append("/");
    s.append(opt_text(id).as_str());
    s.append("/");
    s.append(hash.as_str());
    s.append(".png");
    s
}

/// The avatar URL of a profile that has an avatar.
pub fn avatar_url(u: &UserProfile) -> (r: Option<String>)
    ensures
        match r {
            Some(s) => avatar_url_of(*u) == Some(s@),
            None => avatar_url_of(*u) is None,
        },
{
    match &u.avatar {
        Some(a) => Some(cdn("avatars", &u.id, a)),
        None => None,
    }
}

/// The banner URL of a profile that has a banner.
pub fn banner_url(u: &UserProfile) -> (r: Option<String>)
    ensures
        match r {
            Some(s) => banner_url_of(*u) == Some(s@),
            None => banner_url_of(*u) is None,
        },
{
    match &u.banner {
        Some(b) => Some(cdn("banners", &u.id, b)),
        None => None,
    }
}

pub open spec fn opt_url(o: Option<Seq<char>>) -> Seq<char> {
    match o {
        Some(s) => s,
        None => Seq::empty(),
    }
}

/// `#rrggbb (n)`: the colour as six hex digits (at least), then in decimal.
pub open spec fn accent_text(c: Option<u64>) -> Seq<char> {
    match c {
        Some(c) => "#"@ + zero_pad(hex(c as nat), 6) + " ("@ + decimal(c as nat) + ")"@,
        None => Seq::empty(),
    }
}

/// `n (0xh)`: the flags in decimal, then in hex.
pub open spec fn flags_text(f: Option<u64>) -> Seq<char> {
    match f {
        Some(f) => decimal(f as nat) + " (0x"@ + hex(f as nat) + ")"@,
        None => Seq::empty(),
    }
}

/// Every row of the profile table, before empty values are dropped.
pub open spec fn user_rows_all(u: UserProfile) -> Seq<Seq<Seq<char>>> {
    seq![
        seq!["User ID"@, opt_view(u.id)],
        seq!["Username"@, opt_view(u.username)],
        seq!["Global name"@, opt_view(u.global_name)],
        seq!["Legacy discriminator"@, opt_view(u.discriminator)],
        seq!["Is bot"@, if u.bot == Some(true) { "yes"@ } else { "no"@ }],
        seq!["Avatar hash"@, opt_view(u.avatar)],
        seq!["Avatar URL"@, opt_url(avatar_url_of(u))],
        seq!["Banner hash"@, opt_view(u.banner)],
        seq!["Banner URL"@, opt_url(banner_url_of(u))],
        seq!["Accent color"@, accent_text(u.accent_color)],
        seq!["Public flags"@, flags_text(u.public_flags)],
        seq!["Badges"@, join(badges_of(match u.public_flags { Some(f) => f, None => 0 }), ", "@)],
    ]
}

/// The profile table: the rows of `user_rows_all` whose value is not empty.
pub open spec fn user_rows_spec(u: UserProfile) -> Seq<Seq<Seq<char>>> {
    filled_rows(user_rows_all(u))
}

/// The labels of the profile table are distinct.
proof fn lemma_user_labels(u: UserProfile)
    ensures
        labels_distinct(user_rows_all(u)),
{
    reveal_strlit("Accent color");
    reveal_strlit("Avatar URL");
    reveal_strlit("Avatar hash");
    reveal_strlit("Badges");
    reveal_strlit("Banner URL");
    reveal_strlit("Banner hash");
    reveal_strlit("Global name");
    reveal_strlit("Is bot");
    reveal_strlit("Legacy discriminator");
    reveal_strlit("Public flags");
    reveal_strlit("User ID");
    reveal_strlit("Username");
    let t = user_rows_all(u);
    assert(t[0][0] == "User ID"@);
    assert(t[1][0] == "Username"@);
    assert(t[2][0] == "Global name"@);
    assert(t[3][0] == "Legacy discriminator"@);
    assert(t[4][0] == "Is bot"@);
    assert(t[5][0] == "Avatar hash"@);
    assert(t[6][0] == "Avatar URL"@);
    assert(t[7][0] == "Banner hash"@);
    assert(t[8][0] == "Banner URL"@);
    assert(t[9][0] == "Accent color"@);
    assert(t[10][0] == "Public flags"@);
    assert(t[11][0] == "Badges"@);
    assert forall|i: int, j: int| 0 <= i < j < t.len() implies t[i][0] != t[j][0] by {
        if i == 0 {
            if j == 1 {
                assert(t[0][0].len() != t[1][0].len());
            } else if j == 2 {
                assert(t[0][0].len() != t[2][0].len());
            } else if j == 3 {
                assert(t[0][0].len() != t[3][0].len());
            } else if j == 4 {
                assert(t[0][0].len() != t[4][0].len());
            } else if j == 5 {
                assert(t[0][0].len() != t[5][0].len());
            } else if j == 6 {
                assert(t[0][0].len() != t[6][0].len());
            } else if j == 7 {
                assert(t[0][0].len() != t[7][0].len());
            } else if j == 8 {
                assert(t[0][0].len() != t[8][0].len());
            } else if j == 9 {
                assert(t[0][0].len() != t[9][0].len());
            } else if j == 10 {
                assert(t[0][0].len() != t[10][0].len());
            } else {
                assert(t[0][0].len() != t[11][0].len());
            }
        } else if i == 1 {
            if j == 2 {
                assert(t[1][0].len() != t[2][0].len());
            } else if j == 3 {
                assert(t[1][0].len() != t[3][0].len());
            } else if j == 4 {
                assert(t[1][0].len() != t[4][0].len());
            } else if j == 5 {
                assert(t[1][0].len() != t[5][0].len());
            } else if j == 6 {
                assert(t[1][0].len() != t[6][0].len());
            } else if j == 7 {
                assert(t[1][0].len() != t[7][0].len());
            } else if j == 8 {
                assert(t[1][0].len() != t[8][0].len());
            } else if j == 9 {
                assert(t[1][0].len() != t[9][0].len());
            } else if j == 10 {
                assert(t[1][0].len() != t[10][0].len());
            } else {
                assert(t[1][0].len() != t[11][0].len());
            }
        } else if i == 2 {
            if j == 3 {
                assert(t[2][0].len() != t[3][0].len());
            } else if j == 4 {
                assert(t[2][0].len() != t[4][0].len());
            } else if j == 5 {
                assert(t[2][0][0] != t[5][0][0]);
            } else if j == 6 {
                assert(t[2][0].len() != t[6][0].len());
            } else if j == 7 {
                assert(t[2][0][0] != t[7][0][0]);
            } else if j == 8 {
                assert(t[2][0].len() != t[8][0].len());
            } else if j == 9 {
                assert(t[2][0].len() != t[9][0].len());
            } else if j == 10 {
                assert(t[2][0].len() != t[10][0].len());
            } else {
                assert(t[2][0].len() != t[11][0].len());
            }
        } else if i == 3 {
            if j == 4 {
                assert(t[3][0].len() != t[4][0].len());
            } else if j == 5 {
                assert(t[3][0].len() != t[5][0].len());
            } else if j == 6 {
                assert(t[3][0].len() != t[6][0].len());
            } else if j == 7 {
                assert(t[3][0].len() != t[7][0].len());
            } else if j == 8 {
                assert(t[3][0].len() != t[8][0].len());
            } else if j == 9 {
                assert(t[3][0].len() != t[9][0].len());
            } else if j == 10 {
                assert(t[3][0].len() != t[10][0].len());
            } else {
                assert(t[3][0].len() != t[11][0].len());
            }
        } else if i == 4 {
            if j == 5 {
                assert(t[4][0].len() != t[5][0].len());
            } else if j == 6 {
                assert(t[4][0].len() != t[6][0].len());
            } else if j == 7 {
                assert(t[4][0].len() != t[7][0].len());
            } else if j == 8 {
                assert(t[4][0].len() != t[8][0].len());
            } else if j == 9 {
                assert(t[4][0].len() != t[9][0].len());
            } else if j == 10 {
                assert(t[4][0].len() != t[10][0].len());
            } else {
                assert(t[4][0][0] != t[11][0][0]);
            }
        } else if i == 5 {
            if j == 6 {
                assert(t[5][0].len() != t[6][0].len());
            } else if j == 7 {
                assert(t[5][0][0] != t[7][0][0]);
            } else if j == 8 {
                assert(t[5][0].len() != t[8][0].len());
            } else if j == 9 {
                assert(t[5][0].len() != t[9][0].len());
            } else if j == 10 {
                assert(t[5][0].len() != t[10][0].len());
            } else {
                assert(t[5][0].len() != t[11][0].len());
            }
        } else if i == 6 {
            if j == 7 {
                assert(t[6][0].len() != t[7][0].len());
            } else if j == 8 {
                assert(t[6][0][0] != t[8][0][0]);
            } else if j == 9 {
                assert(t[6][0].len() != t[9][0].len());
            } else if j == 10 {
                assert(t[6][0].len() != t[10][0].len());
            } else {
                assert(t[6][0].len() != t[11][0].len());
            }
        } else if i == 7 {
            if j == 8 {
                assert(t[7][0].len() != t[8][0].len());
            } else if j == 9 {
                assert(t[7][0].len() != t[9][0].len());
            } else if j == 10 {
                assert(t[7][0].len() != t[10][0].len());
            } else {
                assert(t[7][0].len() != t[11][0].len());
            }
        } else if i == 8 {
            if j == 9 {
                assert(t[8][0].len() != t[9][0].len());
            } else if j == 10 {
                assert(t[8][0].len() != t[10][0].len());
            } else {
                assert(t[8][0].len() != t[11][0].len());
            }
        } else if i == 9 {
            if j == 10 {
                assert(t[9][0][0] != t[10][0][0]);
            } else {
                assert(t[9][0].len() != t[11][0].len());
            }
        } else {
            assert(t[10][0].len() != t[11][0].len());
        }
    }
}

/// The profile table shows each non-empty field of the profile under its
/// own label: the ID, the names, whether it is a bot, the avatar and banner
/// with their CDN URLs, the accent colour as `#` and six (or more) hex
/// digits then in decimal, the public flags in decimal then in hex, and the
/// badges of the flags. A field that is empty has no row.
pub proof fn lemma_user_table_fields(u: UserProfile)
    ensures
        shows_filled(
            user_rows_spec(u),
            "User ID"@,
            opt_view(u.id),
        ),
        shows_filled(
            user_rows_spec(u),
            "Username"@,
            opt_view(u.username),
        ),
        shows_filled(
            user_rows_spec(u),
            "Global name"@,
            opt_view(u.global_name),
        ),
        shows_filled(
            user_rows_spec(u),
            "Legacy discriminator"@,
            opt_view(u.discriminator),
        ),
        shows_filled(
            user_rows_spec(u),
            "Is bot"@,
            if u.bot == Some(true) {
                "yes"@
            } else {
                "no"@
            },
        ),
        shows_filled(
            user_rows_spec(u),
            "Avatar hash"@,
            opt_view(u.avatar),
        ),
        shows_filled(
            user_rows_spec(u),
            "Avatar URL"@,
            match u.avatar {
                Some(a) => "https://cdn.discordapp.com/avatars/"@ + opt_view(u.id) + "/"@ + a@ + ".png"@,
                None => Seq::empty(),
            },
        ),
        shows_filled(
            user_rows_spec(u),
            "Banner hash"@,
            opt_view(u.banner),
        ),
        shows_filled(
            user_rows_spec(u),
            "Banner URL"@,
            match u.banner {
                Some(b) => "https://cdn.discordapp.com/banners/"@ + opt_view(u.id) + "/"@ + b@ + ".png"@,
                None => Seq::empty(),
            },
        ),
        shows_filled(
            user_rows_spec(u),
            "Accent color"@,
            match u.accent_color {
                Some(c) => "#"@ + zero_pad(hex(c as nat), 6) + " ("@ + decimal(c as nat) + ")"@,
                None => Seq::empty(),
            },
        ),
        shows_filled(
            user_rows_spec(u),
            "Public flags"@,
            match u.public_flags {
                Some(f) => decimal(f as nat) + " (0x"@ + hex(f as nat) + ")"@,
                None => Seq::empty(),
            },
        ),
        shows_filled(
            user_rows_spec(u),
            "Badges"@,
            join(
                badges_of(
                    match u.public_flags {
                        Some(f) => f,
                        None => 0,
                    },
                ),
                ", "@,
            ),
        ),
{
    reveal_strlit("https://cdn.discordapp.com/");
    reveal_strlit("https://cdn.discordapp.com/avatars/");
    reveal_strlit("https://cdn.discordapp.com/banners/");
    reveal_strlit("avatars");
    reveal_strlit("banners");
    reveal_strlit("/");
    assert("https://cdn.discordapp.com/"@ + "avatars"@ + "/"@ =~= "https://cdn.discordapp.com/avatars/"@);
    assert("https://cdn.discordapp.com/"@ + "banners"@ + "/"@ =~= "https://cdn.discordapp.com/banners/"@);
    match u.avatar {
        Some(a) => {
            assert(cdn_url("avatars"@, opt_view(u.id), a@) =~= "https://cdn.discordapp.com/avatars/"@
                + opt_view(u.id) + "/"@ + a@ + ".png"@);
        },
        None => {},
    }
    match u.banner {
        Some(b) => {
            assert(cdn_url("banners"@, opt_view(u.id), b@) =~= "https://cdn.discordapp.com/banners/"@
                + opt_view(u.id) + "/"@ + b@ + ".png"@);
        },
        None => {},
    }
    lemma_user_labels(u);
    let t = user_rows_all(u);
    lemma_shows_filled_at(t, 0);
    lemma_shows_filled_at(t, 1);
    lemma_shows_filled_at(t, 2);
    lemma_shows_filled_at(t, 3);
    lemma_shows_filled_at(t, 4);
    lemma_shows_filled_at(t, 5);
    lemma_shows_filled_at(t, 6);
    lemma_shows_filled_at(t, 7);
    lemma_shows_filled_at(t, 8);
    lemma_shows_filled_at(t, 9);
    lemma_shows_filled_at(t, 10);
    lemma_shows_filled_at(t, 11);
}

/// The table rows shown for a user profile.
pub fn user_rows(u: &UserProfile) -> (r: Vec<Vec<String>>)
    ensures
        r.deep_view() == user_rows_spec(*u),
{
    let is_bot = match u.bot {
        Some(true) => String::from_str("yes"),
        _ => String::from_str("no"),
    };
    let avatar = match avatar_url(u) {
        Some(s) => s,
        None => String::new(),
    };
    let banner = match banner_url(u) {
        Some(s) => s,
        None => String::new(),
    };
    let mut accent = String::new();
    match u.accent_color {
        Some(c) => {
            accent.append("#");
            accent.append(hex_string(c, 6).as_str());
            accent.append(" (");
            push_decimal(&mut accent, c);
            accent.append(")");
        },
        None => {},
    }
    let mut flags = String::new();
    match u.public_flags {
        Some(f) => {
            push_decimal(&mut flags, f);
            flags.append(" (0x");
            flags.append(hex_string(f, 0).as_str());
            flags.append(")");
        },
        None => {},
    }
    let f = match u.public_flags {
        Some(f) => f,
        None => 0,
    };
    let badges = join_strs(&decode_public_flags(f), ", ");
    let rows = vec![
        row("User ID", opt_text(&u.id)),
        row("Username", opt_text(&u.username)),
        row("Global name", opt_text(&u.global_name)),
        row("Legacy discriminator", opt_text(&u.discriminator)),
        row("Is bot", is_bot),
        row("Avatar hash", opt_text(&u.avatar)),
        row("Avatar URL", avatar),
        row("Banner hash", opt_text(&u.banner)),
        row("Banner URL", banner),
        row("Accent color", accent),
        row("Public flags", flags),
        row("Badges", badges),
    ];
    assert(rows.deep_view()[0] == user_rows_all(*u)[0]);
    assert(rows.deep_view()[1] == user_rows_all(*u)[1]);
    assert(rows.deep_view()[2] == user_rows_all(*u)[2]);
    assert(rows.deep_view()[3] == user_rows_all(*u)[3]);
    assert(rows.deep_view()[4] == user_rows_all(*u)[4]);
    assert(rows.deep_view()[5] == user_rows_all(*u)[5]);
    assert(rows.deep_view()[6] == user_rows_all(*u)[6]);
    assert(rows.deep_view()[7] == user_rows_all(*u)[7]);
    assert(rows.deep_view()[8] == user_rows_all(*u)[8]);
    assert(rows.deep_view()[9] =~= user_rows_all(*u)[9]);
    assert(rows.deep_view()[10] =~= user_rows_all(*u)[10]);
    assert(rows.deep_view()[11] == user_rows_all(*u)[11]);
    assert(rows.deep_view() =~= user_rows_all(*u));
    assert forall|i: int| 0 <= i < rows@.len() implies #[trigger] rows@[i]@.len() == 2 by {
        assert(rows.deep_view()[i].len() == 2);
    }
    retain_filled(rows)
}

/// The users endpoint of user `id`.
pub fn user_url(id: &String) -> (s: String)
    ensures
        s@ == "https://discord.com/api/v10/users/"@ + id@,
{
    let mut s = String::from_str("https://discord.com/api/v10/users/");
    s.append(id.as_str());
    s
}

/// The `Authorization` header value for a bot token.
pub fn bot_authorization(token: &String) -> (s: String)
    ensures
        s@ == "Bot "@ + token@,
{
    let mut s = String::from_str("Bot ");
    s.append(token.as_str());
    s
}

} // verus!
