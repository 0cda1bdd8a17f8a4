//! Joining a list of values with a separator, for display lines.

use vstd::prelude::*;

verus! {

/// The items laid end to end with the separator between consecutive
/// items.
pub open spec fn spec_joined(sep: Seq<char>, items: Seq<Seq<char>>) -> Seq<char>
    decreases items.len(),
{
    if items.len() == 0 {
        Seq::empty()
    } else if items.len() == 1 {
        items[0]
    } else {
        items[0] + sep + spec_joined(sep, items.skip(1))
    }
}

/// Joining one more item appends the separator (unless nothing came
/// before) and the item.
pub proof fn lemma_joined_push(sep: Seq<char>, items: Seq<Seq<char>>, x: Seq<char>)
    ensures
        spec_joined(sep, items.push(x)) == if items.len() == 0 {
            x
        } else {
            spec_joined(sep, items) + sep + x
        },
    decreases items.len(),
{
    let p = items.push(x);
    if items.len() == 0 {
        assert(p[0] == x);
    } else if items.len() == 1 {
        assert(p[0] == items[0]);
        assert(p.skip(1) =~= seq![x]);
        assert(spec_joined(sep, p.skip(1)) == x);
    } else {
        assert(p[0] == items[0]);
        assert(p.skip(1) =~= items.skip(1).push(x));
        lemma_joined_push(sep, items.skip(1), x);
        assert(spec_joined(sep, p) =~= spec_joined(sep, items) + sep + x);
    }
}

/// A list of values to be shown separated by an optional separator.
pub struct Separated {
    pub separator: Option<String>,
    pub values: Vec<String>,
}

impl Separated {
    /// The separator's characters; none stands for no characters.
    pub open spec fn spec_sep(&self) -> Seq<char> {
        match self.separator {
            Some(s) => s@,
            None => Seq::empty(),
        }
    }

    /// Builds the list from a separator and the values.
    pub fn new(separator: Option<String>, values: Vec<String>) -> (r: Self)
        ensures
            r.separator == separator,
            r.values == values,
    {
        Separated { separator, values }
    }

    /// The values to be joined.
    pub fn values(&self) -> (r: &Vec<String>)
        ensures
            *r == self.values,
    {
        &self.values
    }

    /// The values joined into one string, the separator between
    /// consecutive values.
    pub fn render(&self) -> (r: String)
        ensures
            r@ == spec_joined(self.spec_sep(), self.values@.map_values(|s: String| s@)),
    {
        let ghost items = self.values@.map_values(|s: String| s@);
        let empty_sep = String::new();
        let sep: &String = match &self.separator {
            Some(s) => s,
            None => &empty_sep,
        };
        proof {
            assert(sep@ == self.spec_sep());
        }
        let mut out = String::new();
        let mut i: usize = 0;
        proof {
            assert(items.subrange(0, 0) =~= Seq::<Seq<char>>::empty());
        }
        while i < self.values.len()
            invariant
                i <= self.values@.len(),
                items == self.values@.map_values(|s: String| s@),
                sep@ == self.spec_sep(),
                out@ == spec_joined(sep@, items.subrange(0, i as int)),
            decreases self.values@.len() - i,
        {
            if i > 0 {
                out.append(sep.as_str());
            }
            out.append(self.values[i].as_str());
            i = i + 1;
            proof {
                lemma_joined_push(sep@, items.subrange(0, i - 1), items[i - 1]);
                assert(items.subrange(0, i - 1).push(items[i - 1]) =~= items.subrange(
                    0,
                    i as int,
                ));
            }
        }
        proof {
            assert(items.subrange(0, items.len() as int) =~= items);
        }
        out
    }
}

} // verus!
