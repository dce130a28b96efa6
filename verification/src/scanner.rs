//! A cursor over a string, for reading it piece by piece.

use vstd::prelude::*;
use vstd::string::{StrSliceExecFns, StringSliceAdditionalSpecFns};
use vstd::utf8::{
    encode_scalar, encode_utf8, encode_utf8_decode_utf8, encode_utf8_first_scalar,
    encode_utf8_valid_utf8, is_char_boundary, pop_first_scalar,
};

use crate::strings::{char_is_whitespace, is_white_space};

verus! {

/// `char::len_utf8` of std: the number of bytes that the character takes in
/// UTF-8.
#[verifier::external_body]
fn char_len_utf8(c: char) -> (len: usize)
    ensures
        len == encode_scalar(c as u32).len(),
{
    c.len_utf8()
}

/// The bytes of two texts, one behind the other, are the bytes of the one
/// behind the bytes of the other.
pub proof fn lemma_encode_concat(front: Seq<char>, back: Seq<char>)
    ensures
        encode_utf8(front + back) == encode_utf8(front) + encode_utf8(back),
    decreases front.len(),
{
    if front.len() == 0 {
        assert(front + back =~= back);
        assert(encode_utf8(front) + encode_utf8(back) =~= encode_utf8(back));
    } else {
        lemma_encode_concat(front.drop_first(), back);
        assert((front + back).drop_first() =~= front.drop_first() + back);
        assert(encode_utf8(front + back) =~= encode_utf8(front) + encode_utf8(back));
    }
}

/// In the bytes of two texts, one behind the other, the place between them
/// lies between two characters.
pub proof fn lemma_boundary_between(front: Seq<char>, back: Seq<char>)
    ensures
        is_char_boundary(encode_utf8(front + back), encode_utf8(front).len() as int),
    decreases front.len(),
{
    let whole = encode_utf8(front + back);
    encode_utf8_valid_utf8(front + back);
    if front.len() > 0 {
        let rest = front.drop_first() + back;
        lemma_boundary_between(front.drop_first(), back);
        assert((front + back).drop_first() =~= rest);
        encode_utf8_first_scalar(front + back);
        assert((front + back)[0] == front[0]);
        assert(pop_first_scalar(whole) =~= encode_utf8(rest));
        encode_utf8_valid_utf8(rest);
        assert(encode_utf8(front).len() == encode_scalar(front[0] as u32).len() + encode_utf8(
            front.drop_first(),
        ).len());
        lemma_encode_concat(front, back);
    }
}

/// How many characters at the start of a text meet a test.
pub open spec fn run_length(text: Seq<char>, keep: spec_fn(char) -> bool) -> nat
    decreases text.len(),
{
    if text.len() > 0 && keep(text[0]) {
        1 + run_length(text.drop_first(), keep)
    } else {
        0
    }
}

/// The test that a character is `pat`.
pub open spec fn is_char(pat: char) -> spec_fn(char) -> bool {
    |c: char| c == pat
}

/// The test that a character is not `pat`.
pub open spec fn is_not_char(pat: char) -> spec_fn(char) -> bool {
    |c: char| c != pat
}

/// The test that a character is white space.
pub open spec fn is_space() -> spec_fn(char) -> bool {
    |c: char| is_white_space(c)
}

/// A string and a place in it. The place is a byte index that never lies
/// inside the encoding of a character.
#[derive(Clone, Copy)]
pub struct Scanner<'a> {
    string: &'a str,
    cursor: usize,
    index: Ghost<nat>,
}

impl<'a> Scanner<'a> {
    /// The characters of the string.
    pub closed spec fn chars(&self) -> Seq<char> {
        self.string@
    }

    /// How many characters stand in front of the cursor.
    pub closed spec fn index(&self) -> nat {
        self.index@
    }

    /// The byte index of the cursor.
    pub closed spec fn place(&self) -> int {
        self.cursor as int
    }

    /// The characters in front of the cursor.
    pub open spec fn consumed(&self) -> Seq<char> {
        self.chars().take(self.index() as int)
    }

    /// The characters behind the cursor.
    pub open spec fn remaining(&self) -> Seq<char> {
        self.chars().skip(self.index() as int)
    }

    /// The cursor stands between two characters of the string: as many bytes
    /// from the start as the characters in front of it take.
    #[verifier::type_invariant]
    pub closed spec fn wf(&self) -> bool {
        &&& self.index@ <= self.string@.len()
        &&& self.cursor == encode_utf8(self.string@.take(self.index@ as int)).len()
        &&& self.string.spec_bytes().len() <= usize::MAX
    }

    /// The cursor counts the bytes of the characters in front of it.
    pub proof fn law_cursor_counts_bytes(&self)
        requires
            self.wf(),
        ensures
            self.index() <= self.chars().len(),
            self.place() == encode_utf8(self.consumed()).len(),
    {
    }

    proof fn lemma_split(&self)
        requires
            self.wf(),
        ensures
            self.string.spec_bytes() == encode_utf8(self.consumed()) + encode_utf8(
                self.remaining(),
            ),
            is_char_boundary(self.string.spec_bytes(), self.cursor as int),
            self.cursor <= self.string.spec_bytes().len(),
    {
        lemma_encode_concat(self.consumed(), self.remaining());
        lemma_boundary_between(self.consumed(), self.remaining());
        assert(self.consumed() + self.remaining() =~= self.string@);
    }

    /// A scanner at the start of a string.
    pub fn new(string: &'a str) -> (scanner: Scanner<'a>)
        ensures
            scanner.wf(),
            scanner.chars() == string@,
            scanner.index() == 0,
            scanner.place() == 0,
    {
        let _len = string.as_bytes().len();
        assert(string@.take(0) =~= Seq::<char>::empty());
        Scanner { string, cursor: 0, index: Ghost(0) }
    }

    /// The whole string.
    pub fn string(&self) -> (string: &'a str)
        ensures
            string@ == self.chars(),
    {
        self.string
    }

    /// The byte index of the cursor.
    pub fn cursor(&self) -> (cursor: usize)
        ensures
            cursor == self.place(),
    {
        self.cursor
    }

    /// Whether the cursor stands at the end of the string.
    pub fn done(&self) -> (done: bool)
        ensures
            done == (self.index() == self.chars().len()),
    {
        proof {
            use_type_invariant(&*self);
        }
        proof {
            self.lemma_split();
            let rest = self.remaining();
            if rest.len() > 0 {
                encode_utf8_first_scalar(rest);
            } else {
                assert(self.consumed() =~= self.chars());
            }
        }
        self.cursor == self.string.len()
    }

    /// The part of the string in front of the cursor.
    pub fn before(&self) -> (part: &'a str)
        ensures
            part@ == self.consumed(),
    {
        proof {
            use_type_invariant(&*self);
        }
        proof {
            self.lemma_split();
        }
        let part = self.string.split_at(self.cursor).0;
        proof {
            assert(part.spec_bytes() =~= encode_utf8(self.consumed()));
            encode_utf8_decode_utf8(part@);
            encode_utf8_decode_utf8(self.consumed());
        }
        part
    }

    /// The part of the string behind the cursor.
    pub fn after(&self) -> (part: &'a str)
        ensures
            part@ == self.remaining(),
    {
        proof {
            use_type_invariant(&*self);
        }
        proof {
            self.lemma_split();
        }
        let part = self.string.split_at(self.cursor).1;
        proof {
            assert(part.spec_bytes() =~= encode_utf8(self.remaining()));
            encode_utf8_decode_utf8(part@);
            encode_utf8_decode_utf8(self.remaining());
        }
        part
    }

    /// The parts of the string in front of the cursor and behind it.
    pub fn parts(&self) -> (parts: (&'a str, &'a str))
        ensures
            parts.0@ == self.consumed(),
            parts.1@ == self.remaining(),
    {
        proof {
            use_type_invariant(&*self);
        }
        (self.before(), self.after())
    }

    /// The character right behind the cursor, if the string goes on.
    pub fn peek(&self) -> (c: Option<char>)
        ensures
            c == if self.index() < self.chars().len() {
                Some(self.chars()[self.index() as int])
            } else {
                None
            },
    {
        proof {
            use_type_invariant(&*self);
        }
        let rest = self.after();
        if rest.is_empty() {
            None
        } else {
            Some(rest.get_char(0))
        }
    }

    /// Moves the cursor behind the character that stands behind it.
    fn step(&mut self, c: char)
        requires
            old(self).wf(),
            old(self).index() < old(self).chars().len(),
            c == old(self).chars()[old(self).index() as int],
        ensures
            final(self).wf(),
            final(self).string == old(self).string,
            final(self).index() == old(self).index() + 1,
    {
        let ghost front = self.consumed();
        let ghost next = self.string@.take(self.index@ as int + 1);
        proof {
            assert(next =~= front + seq![c]);
            lemma_encode_concat(front, seq![c]);
            assert(seq![c].drop_first() =~= Seq::<char>::empty());
            assert(encode_utf8(seq![c]) =~= encode_scalar(c as u32)) by {
                reveal_with_fuel(encode_utf8, 2);
            }
            lemma_encode_concat(next, self.string@.skip(self.index@ as int + 1));
            assert(next + self.string@.skip(self.index@ as int + 1) =~= self.string@);
        }
        *self = Scanner {
            string: self.string,
            cursor: self.cursor + char_len_utf8(c),
            index: Ghost((self.index@ + 1) as nat),
        };
    }

    /// The part of the string from a place in front of the cursor up to the
    /// cursor.
    fn from(&self, start: usize, Ghost(first): Ghost<nat>) -> (part: &'a str)
        requires
            self.wf(),
            first <= self.index(),
            start == encode_utf8(self.chars().take(first as int)).len(),
        ensures
            part@ == self.chars().subrange(first as int, self.index() as int),
    {
        let front = self.before();
        let ghost head = self.chars().take(first as int);
        let ghost middle = self.chars().subrange(first as int, self.index() as int);
        proof {
            assert(head + middle =~= front@);
            lemma_encode_concat(head, middle);
            lemma_boundary_between(head, middle);
        }
        let part = front.split_at(start).1;
        proof {
            assert(part.spec_bytes() =~= encode_utf8(middle));
            encode_utf8_decode_utf8(part@);
            encode_utf8_decode_utf8(middle);
        }
        part
    }

    /// Reads on while the character behind the cursor meets a test.
    fn eat_run(&mut self, pat: char, wanted: bool, space: bool) -> (read: &'a str)
        requires
            old(self).wf(),
        ensures
            final(self).wf(),
            final(self).string == old(self).string,
            final(self).index() == old(self).index() + run_length(
                old(self).remaining(),
                run_test(pat, wanted, space),
            ),
            read@ == old(self).chars().subrange(old(self).index() as int, final(self).index() as int),
    {
        let start = self.cursor;
        let ghost first = self.index@;
        let ghost keep = run_test(pat, wanted, space);
        loop
            invariant
                self.wf(),
                self.string == old(self).string,
                start == old(self).cursor,
                first == old(self).index(),
                first <= self.index(),
                keep == run_test(pat, wanted, space),
                start == encode_utf8(self.chars().take(first as int)).len(),
                run_length(old(self).remaining(), keep) == self.index() - first + run_length(
                    self.remaining(),
                    keep,
                ),
            ensures
                run_length(self.remaining(), keep) == 0,
            decreases self.chars().len() - self.index(),
        {
            match self.peek() {
                Some(next) => {
                    let keeps = if space {
                        char_is_whitespace(next)
                    } else {
                        (next == pat) == wanted
                    };
                    assert(keeps == keep(next));
                    assert(self.remaining()[0] == next);
                    if !keeps {
                        break;
                    }
                    proof {
                        assert(self.remaining().drop_first() =~= self.chars().skip(
                            self.index() as int + 1,
                        ));
                    }
                    self.step(next);
                },
                None => {
                    break;
                },
            }
        }
        self.from(start, Ghost(first))
    }
}

/// The test by which a run is read: white space if `space`; else the
/// character `pat` if `wanted`, every other character if not.
pub open spec fn run_test(pat: char, wanted: bool, space: bool) -> spec_fn(char) -> bool {
    if space {
        is_space()
    } else if wanted {
        is_char(pat)
    } else {
        is_not_char(pat)
    }
}

/// What a scanner reads with.
pub trait Scan {
    /// The characters of the string being read.
    spec fn text(&self) -> Seq<char>;

    /// How many characters stand in front of the cursor.
    spec fn at(&self) -> nat;

    /// Reads the character right behind the cursor, if the string goes on.
    fn eat(&mut self) -> (c: Option<char>)
        ensures
            final(self).text() == old(self).text(),
            c == if old(self).at() < old(self).text().len() {
                Some(old(self).text()[old(self).at() as int])
            } else {
                None
            },
            final(self).at() == if c is Some {
                old(self).at() + 1
            } else {
                old(self).at()
            },
    ;

    /// Moves back over the character right in front of the cursor, if there
    /// is one, and returns it.
    fn uneat(&mut self) -> (c: Option<char>)
        ensures
            final(self).text() == old(self).text(),
            c == if old(self).at() > 0 {
                Some(old(self).text()[old(self).at() - 1])
            } else {
                None
            },
            final(self).at() == if c is Some {
                (old(self).at() - 1) as nat
            } else {
                old(self).at()
            },
    ;

    /// Reads the character right behind the cursor if it is `pat`, and says
    /// whether it did.
    fn eat_if(&mut self, pat: char) -> (eaten: bool)
        ensures
            final(self).text() == old(self).text(),
            eaten == (old(self).at() < old(self).text().len() && old(self).text()[old(
                self,
            ).at() as int] == pat),
            final(self).at() == if eaten {
                old(self).at() + 1
            } else {
                old(self).at()
            },
    ;

    /// Reads on while `pat` stands behind the cursor, and returns what was
    /// read.
    fn eat_while(&mut self, pat: char) -> (read: &str)
        ensures
            final(self).text() == old(self).text(),
            final(self).at() == old(self).at() + run_length(
                old(self).text().skip(old(self).at() as int),
                is_char(pat),
            ),
            read@ == old(self).text().subrange(old(self).at() as int, final(self).at() as int),
    ;

    /// Reads on until `pat` stands behind the cursor or the string ends, and
    /// returns what was read.
    fn eat_until(&mut self, pat: char) -> (read: &str)
        ensures
            final(self).text() == old(self).text(),
            final(self).at() == old(self).at() + run_length(
                old(self).text().skip(old(self).at() as int),
                is_not_char(pat),
            ),
            read@ == old(self).text().subrange(old(self).at() as int, final(self).at() as int),
    ;

    /// Reads on over white space, and returns what was read.
    fn eat_whitespace(&mut self) -> (read: &str)
        ensures
            final(self).text() == old(self).text(),
            final(self).at() == old(self).at() + run_length(
                old(self).text().skip(old(self).at() as int),
                is_space(),
            ),
            read@ == old(self).text().subrange(old(self).at() as int, final(self).at() as int),
    ;
}

impl<'a> Scan for Scanner<'a> {
    closed spec fn text(&self) -> Seq<char> {
        self.string@
    }

    closed spec fn at(&self) -> nat {
        self.index@
    }

    fn eat(&mut self) -> (c: Option<char>) {
        proof {
            use_type_invariant(&*self);
        }
        let peeked = self.peek();
        match peeked {
            Some(read) => {
                self.step(read);
            },
            None => {},
        }
        peeked
    }

    fn uneat(&mut self) -> (c: Option<char>) {
        proof {
            use_type_invariant(&*self);
        }
        let front = self.before();
        if front.is_empty() {
            None
        } else {
            let c = front.get_char(front.unicode_len() - 1);
            let ghost shorter = self.string@.take(self.index@ - 1);
            proof {
                assert(self.consumed() =~= shorter + seq![c]);
                lemma_encode_concat(shorter, seq![c]);
                assert(seq![c].drop_first() =~= Seq::<char>::empty());
                assert(encode_utf8(seq![c]) =~= encode_scalar(c as u32)) by {
                    reveal_with_fuel(encode_utf8, 2);
                }
            }
            *self = Scanner {
                string: self.string,
                cursor: self.cursor - char_len_utf8(c),
                index: Ghost((self.index@ - 1) as nat),
            };
            Some(c)
        }
    }

    fn eat_if(&mut self, pat: char) -> (eaten: bool) {
        proof {
            use_type_invariant(&*self);
        }
        match self.peek() {
            Some(next) => {
                if next == pat {
                    self.step(next);
                    true
                } else {
                    false
                }
            },
            None => false,
        }
    }

    fn eat_while(&mut self, pat: char) -> (read: &str) {
        proof {
            use_type_invariant(&*self);
        }
        self.eat_run(pat, true, false)
    }

    fn eat_until(&mut self, pat: char) -> (read: &str) {
        proof {
            use_type_invariant(&*self);
        }
        self.eat_run(pat, false, false)
    }

    fn eat_whitespace(&mut self) -> (read: &str) {
        proof {
            use_type_invariant(&*self);
        }
        self.eat_run(' ', true, true)
    }
}

} // verus!
