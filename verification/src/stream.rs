//! Character stream over a message's text, for prefix and command-token
//! scanning. Positions count characters, not bytes, so every slice the
//! stream takes is well-defined on any text.

use vstd::prelude::*;

use crate::text::{is_ws, is_ws_char, push_char};

verus! {

/// What is left of `s` after its leading whitespace.
pub open spec fn drop_leading_ws(s: Seq<char>) -> Seq<char>
    decreases s.len(),
{
    if s.len() == 0 {
        s
    } else if is_ws_char(s[0]) {
        drop_leading_ws(s.drop_first())
    } else {
        s
    }
}

/// The length of the leading run of non-whitespace characters.
pub open spec fn token_len(s: Seq<char>) -> nat
    decreases s.len(),
{
    if s.len() == 0 || is_ws_char(s[0]) {
        0
    } else {
        1 + token_len(s.drop_first())
    }
}

/// `token_len` really is the first whitespace boundary.
pub proof fn lemma_token_len(s: Seq<char>)
    ensures
        token_len(s) <= s.len(),
        forall|k: int| 0 <= k < token_len(s) ==> !is_ws_char(#[trigger] s[k]),
        token_len(s) < s.len() ==> is_ws_char(s[token_len(s) as int]),
    decreases s.len(),
{
    if s.len() > 0 && !is_ws_char(s[0]) {
        lemma_token_len(s.drop_first());
        assert forall|k: int| 0 <= k < token_len(s) implies !is_ws_char(#[trigger] s[k]) by {
            if k > 0 {
                assert(s[k] == s.drop_first()[k - 1]);
            }
        }
    }
}

/// Reading position in a borrowed text.
pub struct Stream<'s> {
    src: &'s str,
    pos: usize,
}

impl<'s> Stream<'s> {
    pub closed spec fn full(self) -> Seq<char> {
        self.src@
    }

    pub closed spec fn position(self) -> int {
        self.pos as int
    }

    pub open spec fn wf(self) -> bool {
        0 <= self.position() <= self.full().len()
    }

    /// The text still to be read.
    pub open spec fn rest(self) -> Seq<char> {
        self.full().skip(self.position())
    }

    pub fn new(src: &'s str) -> (r: Stream<'s>)
        ensures
            r.wf(),
            r.full() == src@,
            r.rest() == src@,
    {
        let r = Stream { src, pos: 0 };
        proof {
            assert(r.rest() =~= src@);
        }
        r
    }

    /// Skip past leading whitespace.
    pub fn skip_whitespace(&mut self)
        requires
            old(self).wf(),
        ensures
            final(self).wf(),
            final(self).full() == old(self).full(),
            final(self).rest() == drop_leading_ws(old(self).rest()),
    {
        let len = self.src.unicode_len();
        while self.pos < len && is_ws(self.src.get_char(self.pos))
            invariant
                self.wf(),
                len == self.full().len(),
                self.full() == old(self).full(),
                drop_leading_ws(self.rest()) == drop_leading_ws(old(self).rest()),
            decreases len - self.pos,
        {
            proof {
                assert(self.rest()[0] == self.full()[self.position()]);
                assert(self.rest().drop_first() =~= self.full().skip(self.position() + 1));
            }
            self.pos += 1;
        }
        proof {
            if self.pos < len {
                assert(self.rest()[0] == self.full()[self.position()]);
                assert(!is_ws_char(self.rest()[0]));
            } else {
                assert(self.rest().len() == 0);
            }
        }
    }

    /// Whether the rest of the text starts with `prefix`, compared
    /// character by character.
    pub fn starts_with(&self, prefix: &str) -> (r: bool)
        requires
            self.wf(),
        ensures
            r == (prefix@.len() <= self.rest().len() && prefix@ == self.rest().take(
                prefix@.len() as int,
            )),
    {
        let plen = prefix.unicode_len();
        let len = self.src.unicode_len();
        if plen > len - self.pos {
            return false;
        }
        let mut i: usize = 0;
        while i < plen
            invariant
                self.wf(),
                i <= plen,
                plen == prefix@.len(),
                len == self.full().len(),
                plen <= self.rest().len(),
                forall|k: int| 0 <= k < i ==> prefix@[k] == self.rest()[k],
            decreases plen - i,
        {
            proof {
                assert(self.rest()[i as int] == self.full()[self.position() + i]);
            }
            if prefix.get_char(i) != self.src.get_char(self.pos + i) {
                proof {
                    assert(prefix@[i as int] != self.rest()[i as int]);
                    assert(prefix@ != self.rest().take(plen as int));
                }
                return false;
            }
            i += 1;
        }
        proof {
            assert(prefix@ =~= self.rest().take(plen as int));
        }
        true
    }

    /// Advance past `n` characters.
    pub fn advance(&mut self, n: usize)
        requires
            old(self).wf(),
            n <= old(self).rest().len(),
        ensures
            final(self).wf(),
            final(self).full() == old(self).full(),
            final(self).rest() == old(self).rest().skip(n as int),
    {
        let total = self.src.unicode_len();
        proof {
            assert(old(self).rest().len() == total - old(self).position());
        }
        self.pos += n;
        proof {
            assert(self.full().skip(self.position()) =~= old(self).rest().skip(n as int));
        }
    }

    /// Take the leading run of non-whitespace characters, leaving the
    /// stream right after it.
    pub fn take_until_whitespace(&mut self) -> (token: String)
        requires
            old(self).wf(),
        ensures
            final(self).wf(),
            final(self).full() == old(self).full(),
            token@ == old(self).rest().take(token_len(old(self).rest()) as int),
            final(self).rest() == old(self).rest().skip(token_len(old(self).rest()) as int),
    {
        let ghost orig = self.rest();
        let len = self.src.unicode_len();
        let mut out = String::new();
        let ghost start = self.position();
        while self.pos < len && !is_ws(self.src.get_char(self.pos))
            invariant
                self.wf(),
                len == self.full().len(),
                self.full() == old(self).full(),
                0 <= start <= self.position(),
                orig == self.full().skip(start),
                out@ == orig.take(self.position() - start),
                forall|k: int| 0 <= k < self.position() - start ==> !is_ws_char(#[trigger] orig[k]),
            decreases len - self.pos,
        {
            let c = self.src.get_char(self.pos);
            push_char(&mut out, c);
            proof {
                let p = self.position() - start;
                assert(self.full().skip(start).len() == self.full().len() - start);
                assert(0 <= p < orig.len());
                assert(orig[p] == self.full().skip(start)[p]);
                assert(self.full().skip(start)[p] == self.full()[p + start]);
                assert(orig.take(p + 1) =~= orig.take(p).push(orig[p]));
            }
            self.pos += 1;
        }
        proof {
            let took = self.position() - start;
            lemma_token_len(orig);
            if self.pos < len {
                assert(orig[took] == self.full()[self.position()]);
                assert(is_ws_char(orig[took]));
                lemma_token_boundary(orig, took);
            } else {
                assert(took == orig.len());
                lemma_token_boundary(orig, took);
            }
            assert(self.rest() =~= orig.skip(token_len(orig) as int));
        }
        out
    }
}

/// A run of non-whitespace characters that ends at the text's end or at a
/// whitespace character is exactly the leading token.
proof fn lemma_token_boundary(s: Seq<char>, i: int)
    requires
        0 <= i <= s.len(),
        forall|k: int| 0 <= k < i ==> !is_ws_char(#[trigger] s[k]),
        i < s.len() ==> is_ws_char(s[i]),
    ensures
        token_len(s) == i,
    decreases s.len(),
{
    if i == 0 {
    } else {
        assert(!is_ws_char(s[0]));
        assert forall|k: int| 0 <= k < i - 1 implies !is_ws_char(#[trigger] s.drop_first()[k]) by {
            assert(s.drop_first()[k] == s[k + 1]);
        }
        if i < s.len() {
            assert(s.drop_first()[i - 1] == s[i]);
        }
        lemma_token_boundary(s.drop_first(), i - 1);
    }
}

} // verus!
