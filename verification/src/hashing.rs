//! A stable hash for session and cache keys: FNV-1a over an explicit
//! byte feed, so that keys stay identical across process restarts.

use vstd::prelude::*;
use crate::slot::{SlotV, KindV, ConsV};

verus! {

/// The FNV-1a offset basis.
pub const FNV_OFFSET: u64 = 14695981039346656037;

/// The FNV-1a prime.
pub const FNV_PRIME: u64 = 1099511628211;

/// One FNV-1a step: fold a byte into the state.
pub open spec fn fnv_step(h: u64, b: u8) -> u64 {
    (((h ^ (b as u64)) * (FNV_PRIME as u64)) % 0x1_0000_0000_0000_0000) as u64
}

/// Fold a byte sequence into the state.
pub open spec fn fnv_bytes(h: u64, bs: Seq<u8>) -> u64
    decreases bs.len(),
{
    if bs.len() == 0 {
        h
    } else {
        fnv_bytes(fnv_step(h, bs[0]), bs.drop_first())
    }
}

/// The four little-endian bytes of a character's code point.
pub open spec fn char_bytes(c: char) -> Seq<u8> {
    let u = c as u32;
    seq![
        (u & 0xff) as u8,
        ((u >> 8) & 0xff) as u8,
        ((u >> 16) & 0xff) as u8,
        ((u >> 24) & 0xff) as u8,
    ]
}

/// Fold a character sequence into the state, one code point at a time.
pub open spec fn fnv_chars(h: u64, cs: Seq<char>) -> u64
    decreases cs.len(),
{
    if cs.len() == 0 {
        h
    } else {
        fnv_chars(fnv_bytes(h, char_bytes(cs[0])), cs.drop_first())
    }
}

proof fn lemma_fnv4(h: u64, b0: u8, b1: u8, b2: u8, b3: u8)
    ensures
        fnv_bytes(h, seq![b0, b1, b2, b3]) == fnv_step(
            fnv_step(fnv_step(fnv_step(h, b0), b1), b2),
            b3,
        ),
{
    let bs = seq![b0, b1, b2, b3];
    assert(bs.drop_first() =~= seq![b1, b2, b3]);
    assert(seq![b1, b2, b3].drop_first() =~= seq![b2, b3]);
    assert(seq![b2, b3].drop_first() =~= seq![b3]);
    assert(seq![b3].drop_first() =~= Seq::<u8>::empty());
    assert(fnv_bytes(h, bs) == fnv_bytes(fnv_step(h, b0), seq![b1, b2, b3]));
    assert(fnv_bytes(fnv_step(h, b0), seq![b1, b2, b3]) == fnv_bytes(
        fnv_step(fnv_step(h, b0), b1),
        seq![b2, b3],
    ));
    assert(fnv_bytes(fnv_step(fnv_step(h, b0), b1), seq![b2, b3]) == fnv_bytes(
        fnv_step(fnv_step(fnv_step(h, b0), b1), b2),
        seq![b3],
    ));
    assert(fnv_bytes(fnv_step(fnv_step(fnv_step(h, b0), b1), b2), seq![b3]) == fnv_bytes(
        fnv_step(fnv_step(fnv_step(fnv_step(h, b0), b1), b2), b3),
        Seq::<u8>::empty(),
    ));
    assert(fnv_bytes(fnv_step(fnv_step(fnv_step(fnv_step(h, b0), b1), b2), b3), Seq::<u8>::empty())
        == fnv_step(fnv_step(fnv_step(fnv_step(h, b0), b1), b2), b3));
}

/// A hasher whose result depends only on the bytes fed to it.
pub struct StableHasher {
    /// Current state.
    pub state: u64,
}

impl StableHasher {
    /// A fresh hasher at the offset basis.
    pub fn new() -> (r: StableHasher)
        ensures
            r.state == FNV_OFFSET,
    {
        StableHasher { state: FNV_OFFSET }
    }

    /// Feed one byte.
    pub fn write_u8(&mut self, b: u8)
        ensures
            final(self).state == fnv_step(old(self).state, b),
    {
        self.state = (self.state ^ (b as u64)).wrapping_mul(FNV_PRIME);
    }

    /// Feed one character, as its four little-endian code-point bytes.
    pub fn write_char(&mut self, c: char)
        ensures
            final(self).state == fnv_bytes(old(self).state, char_bytes(c)),
    {
        let ghost h = self.state;
        let u: u32 = c as u32;
        let b0: u8 = (u & 0xff) as u8;
        let b1: u8 = ((u >> 8) & 0xff) as u8;
        let b2: u8 = ((u >> 16) & 0xff) as u8;
        let b3: u8 = ((u >> 24) & 0xff) as u8;
        self.write_u8(b0);
        self.write_u8(b1);
        self.write_u8(b2);
        self.write_u8(b3);
        proof {
            lemma_fnv4(h, b0, b1, b2, b3);
            assert(char_bytes(c) == seq![b0, b1, b2, b3]);
        }
    }

    /// Feed a string, character by character.
    pub fn write_str(&mut self, s: &str)
        ensures
            final(self).state == fnv_chars(old(self).state, s@),
    {
        let cs = crate::text::to_chars(s);
        let n: usize = cs.len();
        let mut i: usize = 0;
        proof {
            assert(s@.subrange(0, n as int) =~= s@);
        }
        while i < n
            invariant
                i <= n,
                n == s@.len(),
                cs@ == s@,
                fnv_chars(old(self).state, s@) == fnv_chars(
                    self.state,
                    s@.subrange(i as int, n as int),
                ),
            decreases n - i,
        {
            proof {
                assert(s@.subrange(i as int, n as int).drop_first() =~= s@.subrange(
                    i + 1,
                    n as int,
                ));
            }
            self.write_char(cs[i]);
            i = i + 1;
        }
        proof {
            assert(s@.subrange(n as int, n as int) =~= Seq::<char>::empty());
        }
    }

    /// Feed a separator byte, marking a field boundary.
    pub fn write_sep(&mut self)
        ensures
            final(self).state == fnv_step(old(self).state, 0xff),
    {
        self.write_u8(0xff);
    }

    /// Feed a boolean.
    pub fn write_bool(&mut self, b: bool)
        ensures
            final(self).state == fnv_step(old(self).state, if b { 1u8 } else { 0u8 }),
    {
        self.write_u8(if b { 1 } else { 0 });
    }

    /// Feed a 32-bit value, little endian.
    pub fn write_u32(&mut self, u: u32)
        ensures
            final(self).state == fnv_bytes(old(self).state, u32_bytes(u)),
    {
        let ghost h = self.state;
        let b0: u8 = (u & 0xff) as u8;
        let b1: u8 = ((u >> 8) & 0xff) as u8;
        let b2: u8 = ((u >> 16) & 0xff) as u8;
        let b3: u8 = ((u >> 24) & 0xff) as u8;
        self.write_u8(b0);
        self.write_u8(b1);
        self.write_u8(b2);
        self.write_u8(b3);
        proof {
            lemma_fnv4(h, b0, b1, b2, b3);
            assert(u32_bytes(u) == seq![b0, b1, b2, b3]);
        }
    }

    /// The accumulated hash.
    pub fn finish(&self) -> (r: u64)
        ensures
            r == self.state,
    {
        self.state
    }
}

/// The four little-endian bytes of a 32-bit value.
pub open spec fn u32_bytes(u: u32) -> Seq<u8> {
    seq![
        (u & 0xff) as u8,
        ((u >> 8) & 0xff) as u8,
        ((u >> 16) & 0xff) as u8,
        ((u >> 24) & 0xff) as u8,
    ]
}

/// Fold an optional string: presence flag, then the text.
pub open spec fn fnv_opt_str(h: u64, o: Option<Seq<char>>) -> u64 {
    match o {
        Option::Some(s) => fnv_chars(fnv_step(h, 1), s),
        Option::None => fnv_step(h, 0),
    }
}

/// Fold a kind: a tag byte, and the custom tag's text.
pub open spec fn fnv_kind(h: u64, k: KindV) -> u64 {
    match k {
        KindV::Raw => fnv_step(h, 1),
        KindV::Function => fnv_step(h, 2),
        KindV::Class => fnv_step(h, 3),
        KindV::Html => fnv_step(h, 4),
        KindV::Css => fnv_step(h, 5),
        KindV::JavaScript => fnv_step(h, 6),
        KindV::Component => fnv_step(h, 7),
        KindV::Custom(t) => fnv_chars(fnv_step(h, 8), t),
    }
}

/// Fold a string list: each entry, then a separator.
pub open spec fn fnv_str_list(h: u64, l: Seq<Seq<char>>) -> u64
    decreases l.len(),
{
    if l.len() == 0 {
        h
    } else {
        fnv_str_list(fnv_step(fnv_chars(h, l[0]), 0xff), l.drop_first())
    }
}

/// Fold a constraint set, field by field.
pub open spec fn fnv_cons(h: u64, c: ConsV) -> u64 {
    let h1 = match c.max_lines {
        Option::Some(m) => fnv_bytes(fnv_step(h, 1), u32_bytes(m as u32)),
        Option::None => fnv_step(h, 0),
    };
    let h2 = match c.max_chars {
        Option::Some(m) => fnv_bytes(fnv_step(h1, 1), u32_bytes(m as u32)),
        Option::None => fnv_step(h1, 0),
    };
    let h3 = fnv_str_list(h2, c.required_imports);
    let h4 = fnv_step(h3, 0xff);
    let h5 = fnv_str_list(h4, c.forbidden_patterns);
    let h6 = fnv_step(h5, 0xff);
    let h7 = fnv_opt_str(h6, c.language);
    let h8 = fnv_opt_str(h7, c.test_harness);
    fnv_opt_str(h8, c.test_command)
}

/// The stable fingerprint of a slot's full definition.
pub open spec fn sp_slot_fp(s: SlotV) -> u64 {
    let h0 = fnv_chars(FNV_OFFSET as u64, s.name);
    let h1 = fnv_step(h0, 0xff);
    let h2 = fnv_chars(h1, s.prompt);
    let h3 = fnv_step(h2, 0xff);
    let h4 = fnv_kind(h3, s.kind);
    let h5 = match s.constraints {
        Option::Some(c) => fnv_cons(fnv_step(h4, 1), c),
        Option::None => fnv_step(h4, 0),
    };
    let h6 = fnv_step(h5, if s.required { 1u8 } else { 0u8 });
    let h7 = fnv_opt_str(h6, s.default);
    let h8 = match s.temperature {
        Option::Some(t) => fnv_bytes(fnv_step(h7, 1), u32_bytes(t)),
        Option::None => fnv_step(h7, 0),
    };
    h8
}

} // verus!
