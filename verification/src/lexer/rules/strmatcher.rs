//! Matching input against a fixed string, one character at a time.

use vstd::prelude::*;
use crate::lexer::rules::MatchResult;

verus! {

/// The verdict on `text` for the fixed string `target`: a proper prefix of
/// `target` is an incomplete match, `target` itself a complete one.
pub open spec fn prefix_verdict(target: Seq<char>, text: Seq<char>) -> MatchResult {
    if text.len() <= target.len() && text == target.take(text.len() as int) {
        if text.len() == target.len() {
            MatchResult::CompleteMatch
        } else {
            MatchResult::IncompleteMatch
        }
    } else {
        MatchResult::NoMatch
    }
}

/// Compares the characters it is fed with those of a target string. It
/// counts the characters that it accepted: never more than the target has.
#[derive(Debug)]
pub struct StrMatcher {
    target: Vec<char>,
    count: usize,
}

impl StrMatcher {
    /// The string that is matched against.
    pub closed spec fn target(&self) -> Seq<char> {
        self.target@
    }

    /// The characters accepted so far: a prefix of the target.
    pub closed spec fn matched(&self) -> Seq<char> {
        if self.count <= self.target@.len() {
            self.target@.take(self.count as int)
        } else {
            self.target@
        }
    }

    pub fn new(target: &str) -> (matcher: StrMatcher)
        ensures
            matcher.target() == target@,
            matcher.matched() == Seq::<char>::empty(),
    {
        let len = target.unicode_len();
        let mut chars: Vec<char> = Vec::new();
        let mut i: usize = 0;
        while i < len
            invariant
                len == target@.len(),
                i <= len,
                chars@ == target@.take(i as int),
            decreases len - i,
        {
            chars.push(target.get_char(i));
            i += 1;
        }
        StrMatcher { target: chars, count: 0 }
    }

    /// The number of characters accepted so far.
    pub fn count(&self) -> (count: usize)
        ensures
            count == self.matched().len(),
    {
        if self.count <= self.target.len() {
            self.count
        } else {
            self.target.len()
        }
    }

    /// The verdict on the characters accepted so far.
    pub fn last_match_result(&self) -> (res: MatchResult)
        ensures
            res == if self.matched().len() == 0 {
                MatchResult::IncompleteMatch
            } else {
                prefix_verdict(self.target(), self.matched())
            },
    {
        let count = self.count();
        assert(self.matched() == self.target@.take(count as int));
        if count > 0 && count == self.target.len() {
            assert(self.target@.take(count as int) =~= self.target@);
            MatchResult::CompleteMatch
        } else {
            MatchResult::IncompleteMatch
        }
    }

    pub fn reset(&mut self)
        ensures
            final(self).target() == old(self).target(),
            final(self).matched() == Seq::<char>::empty(),
    {
        self.count = 0;
    }

    /// The verdict on the accepted characters with `next` added; nothing
    /// changes.
    pub fn peek_match(&self, next: char) -> (res: MatchResult)
        ensures
            res == prefix_verdict(self.target(), self.matched().push(next)),
    {
        let count = self.count();
        assert(self.matched() == self.target@.take(count as int));
        if count < self.target.len() && self.target[count] == next {
            assert(self.matched().push(next) == self.target@.take(count + 1));
            if count + 1 == self.target.len() {
                MatchResult::CompleteMatch
            } else {
                MatchResult::IncompleteMatch
            }
        } else {
            proof {
                let text = self.matched().push(next);
                if text.len() <= self.target@.len() {
                    assert(text[count as int] == next);
                    assert(self.target@.take(text.len() as int)[count as int]
                        == self.target@[count as int]);
                }
            }
            MatchResult::NoMatch
        }
    }

    /// Accepts `next` if the accepted characters with `next` added still
    /// match, and tells the verdict on them.
    pub fn try_match(&mut self, next: char) -> (res: MatchResult)
        ensures
            final(self).target() == old(self).target(),
            res == prefix_verdict(old(self).target(), old(self).matched().push(next)),
            res.matches() ==> final(self).matched() == old(self).matched().push(next),
            !res.matches() ==> final(self).matched() == old(self).matched(),
    {
        let res = self.peek_match(next);
        if res.is_match() {
            let len = self.target.len();
            let count = self.count();
            proof {
                assert(self.matched() == self.target@.take(count as int));
                assert(self.matched().push(next).len() <= len);
            }
            self.count = count + 1;
            assert(self.matched() == old(self).matched().push(next));
        }
        res
    }
}

} // verus!
