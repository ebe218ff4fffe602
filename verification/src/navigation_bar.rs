//! The trail of headings from the root to the displayed heading.

use crate::node::strings_view;
use crate::parser::{hashes_from, heading_depth};
use crate::text::{to_chars, trimmed, trimmed_string};
use vstd::prelude::*;
use vstd::string::*;

verus! {

/// The name of a heading on the trail: the heading line without its `#`
/// characters and without the white space around the rest.
pub open spec fn breadcrumb_of(heading: Seq<char>) -> Seq<char> {
    trimmed(heading.skip(heading_depth(heading) as int))
}

/// The back button and the trail.
#[derive(Debug)]
pub struct NavigationBar {
    pub back_text: String,
    pub breadcrumbs: Vec<String>,
}

impl NavigationBar {
    /// The trail as mathematical values.
    pub open spec fn trail(&self) -> Seq<Seq<char>> {
        strings_view(self.breadcrumbs@)
    }

    /// An empty trail.
    pub fn new() -> (bar: NavigationBar)
        ensures
            bar.trail() == Seq::<Seq<char>>::empty(),
            bar.back_text@ == " (b) Back "@,
    {
        let bar = NavigationBar {
            back_text: String::from_str(" (b) Back "),
            breadcrumbs: Vec::new(),
        };
        assert(bar.trail() =~= Seq::<Seq<char>>::empty());
        bar
    }

    /// Adds the name of a heading to the end of the trail.
    pub fn push_breadcrumb(&mut self, new_heading: String)
        ensures
            final(self).trail() == old(self).trail().push(breadcrumb_of(new_heading@)),
            final(self).back_text == old(self).back_text,
    {
        let chars = to_chars(new_heading.as_str());
        let mut from: usize = 0;
        while from < chars.len() && chars[from] == '#'
            invariant
                from <= chars.len(),
                hashes_from(chars@, from as int) + from == heading_depth(chars@),
            decreases chars.len() - from,
        {
            from += 1;
        }
        let heading = trimmed_string(&chars, from);
        self.breadcrumbs.push(heading);
        assert(self.trail() =~= old(self).trail().push(breadcrumb_of(new_heading@)));
    }

    /// Takes the last name off the trail, if there is one.
    pub fn pop_breadcrumb(&mut self)
        ensures
            final(self).trail() == if old(self).trail().len() > 0 {
                old(self).trail().drop_last()
            } else {
                old(self).trail()
            },
            final(self).back_text == old(self).back_text,
    {
        self.breadcrumbs.pop();
        assert(self.trail() =~= if old(self).trail().len() > 0 {
            old(self).trail().drop_last()
        } else {
            old(self).trail()
        });
    }
}

} // verus!
