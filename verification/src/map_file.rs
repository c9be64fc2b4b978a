//! A handle to a map file, identified by its path; the file name is the
//! path's final component: the characters after the last `/` separator,
//! ignoring separators at the very end of the path.

use vstd::prelude::*;

verus! {

broadcast use vstd::string::axiom_spec_iter;

/// The path with any trailing `/` separators removed.
pub open spec fn strip_trailing_seps(s: Seq<char>) -> Seq<char>
    decreases s.len(),
{
    if s.len() > 0 && s.last() == '/' {
        strip_trailing_seps(s.drop_last())
    } else {
        s
    }
}

/// The characters after the last `/` separator: empty for a string that
/// ends in a separator, the whole string when it has none.
pub open spec fn tail_component(s: Seq<char>) -> Seq<char>
    decreases s.len(),
{
    if s.len() == 0 {
        Seq::empty()
    } else if s.last() == '/' {
        Seq::empty()
    } else {
        tail_component(s.drop_last()).push(s.last())
    }
}

/// The final component of a path: the characters after the last separator,
/// once separators at the end of the path are ignored, so `a/b` and `a/b/`
/// both name `b`. Empty when the path is empty or all separators.
pub open spec fn file_name_of(s: Seq<char>) -> Seq<char> {
    tail_component(strip_trailing_seps(s))
}

/// Relies on String::push: appends the given character to the end of the
/// string.
#[verifier::external_body]
fn push_char(s: &mut String, c: char)
    ensures
        final(s)@ == old(s)@.push(c),
{
    s.push(c);
}

/// A map file, identified by its path.
pub struct MapFile {
    path: String,
}

impl MapFile {
    /// The characters of the path.
    pub closed spec fn view(&self) -> Seq<char> {
        self.path@
    }

    /// Wraps the given path.
    pub fn new(path: String) -> (r: Self)
        ensures
            r@ == path@,
    {
        Self { path }
    }

    /// The file name the path points at: its final component. The path
    /// must have one, and it must be a real name — a path with no final
    /// component, or whose final component is `.` or `..`, is not a file
    /// name and is left out.
    pub fn file_name(&self) -> (r: String)
        requires
            file_name_of(self@).len() > 0,
            file_name_of(self@) != seq!['.'],
            file_name_of(self@) != seq!['.', '.'],
        ensures
            r@ == file_name_of(self@),
    {
        let mut name = String::new();
        let mut kept = String::new();
        for c in it: self.path.as_str().chars()
            invariant
                it.seq() == self@,
                name@ == tail_component(self@.take(it.index() as int)),
                (if name@.len() > 0 {
                    name@
                } else {
                    kept@
                }) == file_name_of(self@.take(it.index() as int)),
        {
            proof {
                let i = it.index() as int;
                assert(0 <= i < self@.len());
                assert(c == self@[i]);
                assert(self@.take(i + 1).drop_last() =~= self@.take(i));
                assert(self@.take(i + 1).last() == self@[i]);
                if c == '/' {
                    assert(strip_trailing_seps(self@.take(i + 1)) == strip_trailing_seps(
                        self@.take(i),
                    ));
                } else {
                    assert(strip_trailing_seps(self@.take(i + 1)) == self@.take(i + 1));
                }
            }
            if c == '/' {
                if !name.as_str().is_empty() {
                    kept = name;
                    name = String::new();
                }
            } else {
                push_char(&mut name, c);
            }
        }
        proof {
            assert(self@.take(self@.len() as int) =~= self@);
        }
        if !name.as_str().is_empty() {
            name
        } else {
            kept
        }
    }
}

} // verus!
