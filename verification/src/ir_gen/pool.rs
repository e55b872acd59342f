use vstd::prelude::*;
use vstd::string::StringSliceAdditionalSpecFns;
use crate::ir_gen::program::ProgramView;

verus! {

/// The offset under which the text `s` is interned in `pool`: that of the
/// first entry that holds it, if any does.
pub open spec fn pool_find(pool: Seq<(&str, usize)>, s: Seq<char>) -> Option<usize>
    decreases pool.len(),
{
    if pool.len() == 0 {
        None
    } else if pool[0].0@ == s {
        Some(pool[0].1)
    } else {
        pool_find(pool.drop_first(), s)
    }
}

/// Number of bytes that the strings of `pool` take together.
pub open spec fn pool_bytes(pool: Seq<(&str, usize)>) -> nat
    decreases pool.len(),
{
    if pool.len() == 0 {
        0
    } else {
        pool_bytes(pool.drop_last()) + pool.last().0.spec_bytes().len()
    }
}

impl<'a> ProgramView<'a> {
    /// Whether interning `s` stays within the range of the pool's byte
    /// counter. A string that is interned already always does.
    pub open spec fn can_intern(&self, s: &'a str) -> bool {
        pool_find(self.static_strings, s@) is None ==> self.static_strings_len
            + s.spec_bytes().len() <= usize::MAX
    }

    /// The program after `s` is interned, and the offset that names `s`. A
    /// string that the pool holds already keeps its offset and changes
    /// nothing; a new one gets the number of bytes interned before it.
    pub open spec fn interned(&self, s: &'a str) -> (ProgramView<'a>, usize) {
        match pool_find(self.static_strings, s@) {
            Some(offset) => (*self, offset),
            None => (
                ProgramView {
                    static_strings: self.static_strings.push((s, self.static_strings_len)),
                    static_strings_len: (self.static_strings_len
                        + s.spec_bytes().len()) as usize,
                    ..*self
                },
                self.static_strings_len,
            ),
        }
    }

    /// The pool's invariant: no text is held twice, every entry's offset is
    /// the number of bytes of the entries before it, and the byte counter is
    /// the number of bytes of all entries.
    pub open spec fn pool_wf(&self) -> bool {
        &&& forall|i: int, j: int|
            0 <= i < j < self.static_strings.len() ==> (#[trigger] self.static_strings[i]).0@
                != (#[trigger] self.static_strings[j]).0@
        &&& forall|i: int|
            0 <= i < self.static_strings.len() ==> (#[trigger] self.static_strings[i]).1
                == pool_bytes(self.static_strings.take(i))
        &&& self.static_strings_len == pool_bytes(self.static_strings)
    }
}

/// `pool_find` returns an offset exactly when some entry holds the text,
/// and then that of the first such entry.
pub proof fn lemma_pool_find(pool: Seq<(&str, usize)>, s: Seq<char>)
    ensures
        pool_find(pool, s) is None <==> forall|i: int|
            0 <= i < pool.len() ==> (#[trigger] pool[i]).0@ != s,
        pool_find(pool, s) matches Some(offset) ==> exists|i: int|
            {
                &&& 0 <= i < pool.len()
                &&& (#[trigger] pool[i]).0@ == s
                &&& pool[i].1 == offset
                &&& forall|j: int| 0 <= j < i ==> (#[trigger] pool[j]).0@ != s
            },
    decreases pool.len(),
{
    if pool.len() == 0 {
    } else if pool[0].0@ == s {
        assert(pool[0].0@ == s && pool[0].1 == pool_find(pool, s)->0);
    } else {
        let rest = pool.drop_first();
        lemma_pool_find(rest, s);
        assert forall|i: int| 0 <= i < rest.len() implies #[trigger] rest[i] == pool[i + 1] by {}
        if pool_find(rest, s) is None {
            assert forall|i: int| 0 <= i < pool.len() implies (#[trigger] pool[i]).0@ != s by {
                if i > 0 {
                    assert(rest[i - 1] == pool[i]);
                }
            }
        } else {
            let offset = pool_find(rest, s)->0;
            let i = choose|i: int|
                {
                    &&& 0 <= i < rest.len()
                    &&& (#[trigger] rest[i]).0@ == s
                    &&& rest[i].1 == offset
                    &&& forall|j: int| 0 <= j < i ==> (#[trigger] rest[j]).0@ != s
                };
            assert(pool[i + 1] == rest[i]);
            assert forall|j: int| 0 <= j < i + 1 implies (#[trigger] pool[j]).0@ != s by {
                if j > 0 {
                    assert(rest[j - 1] == pool[j]);
                }
            }
            assert(0 <= i + 1 < pool.len() && pool[i + 1].0@ == s && pool[i + 1].1 == offset);
        }
    }
}

/// Looking up a text in a pool with one more entry at its end.
pub proof fn lemma_pool_find_push(pool: Seq<(&str, usize)>, entry: (&str, usize), s: Seq<char>)
    ensures
        pool_find(pool.push(entry), s) == match pool_find(pool, s) {
            Some(offset) => Some(offset),
            None => if entry.0@ == s {
                Some(entry.1)
            } else {
                None
            },
        },
    decreases pool.len(),
{
    let grown = pool.push(entry);
    if pool.len() == 0 {
        assert(grown.drop_first() =~= Seq::empty());
    } else {
        assert(grown.drop_first() =~= pool.drop_first().push(entry));
        if pool[0].0@ != s {
            lemma_pool_find_push(pool.drop_first(), entry, s);
        }
    }
}

/// Interning is idempotent: a string interned a second time gets the
/// offset it got the first time, and the second call changes nothing.
pub proof fn lemma_intern_twice<'a>(p: ProgramView<'a>, s: &'a str)
    ensures
        p.interned(s).0.interned(s) == (p.interned(s).0, p.interned(s).1),
{
    if pool_find(p.static_strings, s@) is None {
        lemma_pool_find_push(p.static_strings, (s, p.static_strings_len), s@);
    }
}

/// Two strings with the same text are interned under the same offset,
/// whichever of them comes first.
pub proof fn lemma_intern_same_text<'a>(p: ProgramView<'a>, s: &'a str, t: &'a str)
    requires
        s@ == t@,
    ensures
        p.interned(s).0.interned(t).1 == p.interned(s).1,
        p.interned(s).0.interned(t).0 == p.interned(s).0,
{
    if pool_find(p.static_strings, s@) is None {
        lemma_pool_find_push(p.static_strings, (s, p.static_strings_len), s@);
    }
}

/// The empty pool is well formed.
pub proof fn lemma_empty_pool_wf()
    ensures
        ProgramView::empty().pool_wf(),
{
}

/// Interning keeps the pool well formed, and a string that was not in the
/// pool gets the number of bytes interned before it as its offset.
pub proof fn lemma_intern_keeps_pool_wf<'a>(p: ProgramView<'a>, s: &'a str)
    requires
        p.pool_wf(),
        p.can_intern(s),
    ensures
        p.interned(s).0.pool_wf(),
        pool_find(p.static_strings, s@) is None ==> p.interned(s).1 == pool_bytes(
            p.static_strings,
        ),
{
    lemma_pool_find(p.static_strings, s@);
    if pool_find(p.static_strings, s@) is None {
        let q = p.interned(s).0;
        let pool = p.static_strings;
        let grown = q.static_strings;
        assert(grown.drop_last() =~= pool);
        assert forall|i: int| 0 <= i < grown.len() implies (#[trigger] grown[i]).1 == pool_bytes(
            grown.take(i),
        ) by {
            if i < pool.len() {
                assert(grown.take(i) =~= pool.take(i));
            } else {
                assert(grown.take(i) =~= pool);
            }
        }
    }
}

/// The bytes of a prefix of the pool, against those of a longer prefix.
pub proof fn lemma_pool_bytes_take(pool: Seq<(&str, usize)>, i: int, j: int)
    requires
        0 <= i < j <= pool.len(),
    ensures
        pool_bytes(pool.take(j)) >= pool_bytes(pool.take(i)) + pool[i].0.spec_bytes().len(),
    decreases j - i,
{
    assert(pool.take(j).drop_last() =~= pool.take(j - 1));
    if j - 1 > i {
        lemma_pool_bytes_take(pool, i, j - 1);
    } else {
        assert(pool.take(j).last() == pool[i]);
    }
}

/// In a well-formed pool a later entry starts where an earlier one ends,
/// or beyond: two entries have offsets apart by at least the length of the
/// earlier one. Two entries thus share an offset only where the earlier
/// one is the empty string and the later one follows it directly.
pub proof fn lemma_pool_offsets_apart<'a>(p: ProgramView<'a>, i: int, j: int)
    requires
        p.pool_wf(),
        0 <= i < j < p.static_strings.len(),
    ensures
        p.static_strings[j].1 >= p.static_strings[i].1
            + p.static_strings[i].0.spec_bytes().len(),
        p.static_strings[i].0@.len() > 0 || j > i + 1 ==> p.static_strings[i].1
            != p.static_strings[j].1,
        p.static_strings[i].0@.len() == 0 && j == i + 1 ==> p.static_strings[i].1
            == p.static_strings[j].1,
{
    let pool = p.static_strings;
    lemma_pool_bytes_take(pool, i, j);
    assert(pool.take(j).take(i) =~= pool.take(i));
    if pool[i].0@.len() > 0 {
        lemma_nonempty_text_has_bytes(pool[i].0@);
    } else {
        assert(pool[i].0@ =~= Seq::<char>::empty());
        if j > i + 1 {
            lemma_pool_bytes_take(pool, i + 1, j);
            lemma_pool_bytes_take(pool, i, i + 1);
            assert(pool[i + 1].0@ != pool[i].0@);
            assert(pool[i + 1].0@.len() > 0) by {
                if pool[i + 1].0@.len() == 0 {
                    assert(pool[i + 1].0@ =~= Seq::<char>::empty());
                }
            }
            lemma_nonempty_text_has_bytes(pool[i + 1].0@);
        } else {
            assert(vstd::utf8::encode_utf8(Seq::<char>::empty()) =~= Seq::<u8>::empty());
            assert(pool.take(j).drop_last() =~= pool.take(i));
            assert(pool.take(j).last() == pool[i]);
        }
    }
}

/// A text of at least one character has at least one byte.
pub proof fn lemma_nonempty_text_has_bytes(s: Seq<char>)
    requires
        s.len() > 0,
    ensures
        vstd::utf8::encode_utf8(s).len() > 0,
{
    vstd::utf8::encode_utf8_decode_utf8(s);
    if vstd::utf8::encode_utf8(s).len() == 0 {
        assert(vstd::utf8::encode_utf8(s) =~= Seq::<u8>::empty());
        vstd::utf8::encode_utf8_decode_utf8(Seq::<char>::empty());
        assert(vstd::utf8::encode_utf8(Seq::<char>::empty()) =~= Seq::<u8>::empty());
        assert(vstd::utf8::decode_utf8(Seq::<u8>::empty()) == Seq::<char>::empty());
    }
}

} // verus!
