use vstd::prelude::*;
use vstd::string::StringExecFns;

verus! {

/// Layout settings for printing values: indentation by spaces or tabs, or
/// compact output with no indentation and no line breaks.
pub struct PrettyPrint {
    use_tabs: bool,
    compact: bool,
    tab_size: usize,
    indent: usize,
}

impl PrettyPrint {
    pub closed spec fn spec_indent(&self) -> usize {
        self.indent
    }

    pub closed spec fn spec_use_tabs(&self) -> bool {
        self.use_tabs
    }

    pub closed spec fn spec_compact(&self) -> bool {
        self.compact
    }

    pub closed spec fn spec_tab_size(&self) -> usize {
        self.tab_size
    }

    /// The width of the current indentation: none when compact, one tab per
    /// level with tabs, else `tab_size` spaces per level.
    pub open spec fn spec_spaces(&self) -> int {
        if self.spec_compact() {
            0
        } else if self.spec_use_tabs() {
            self.spec_indent() as int
        } else {
            self.spec_indent() * self.spec_tab_size()
        }
    }

    /// Spaces, three per level, not compact, at level 0.
    pub fn new() -> (r: Self)
        ensures
            r.spec_indent() == 0,
            !r.spec_use_tabs(),
            !r.spec_compact(),
            r.spec_tab_size() == 3,
    {
        PrettyPrint { use_tabs: false, compact: false, tab_size: 3, indent: 0 }
    }

    /// One level deeper.
    pub fn indent(&mut self)
        requires
            old(self).spec_indent() < usize::MAX,
        ensures
            final(self).spec_indent() == old(self).spec_indent() + 1,
            final(self).spec_use_tabs() == old(self).spec_use_tabs(),
            final(self).spec_compact() == old(self).spec_compact(),
            final(self).spec_tab_size() == old(self).spec_tab_size(),
    {
        self.indent = self.indent + 1;
    }

    /// One level shallower, not below level 0.
    pub fn outdent(&mut self)
        ensures
            final(self).spec_indent() == if old(self).spec_indent() > 0 {
                old(self).spec_indent() - 1
            } else {
                0
            },
            final(self).spec_use_tabs() == old(self).spec_use_tabs(),
            final(self).spec_compact() == old(self).spec_compact(),
            final(self).spec_tab_size() == old(self).spec_tab_size(),
    {
        if self.indent > 0 {
            self.indent = self.indent - 1;
        }
    }

    pub fn with_use_tabs(self, use_tabs: bool) -> (r: Self)
        ensures
            r.spec_use_tabs() == use_tabs,
            r.spec_indent() == self.spec_indent(),
            r.spec_compact() == self.spec_compact(),
            r.spec_tab_size() == self.spec_tab_size(),
    {
        PrettyPrint { use_tabs, ..self }
    }

    pub fn with_compact(self, compact: bool) -> (r: Self)
        ensures
            r.spec_compact() == compact,
            r.spec_indent() == self.spec_indent(),
            r.spec_use_tabs() == self.spec_use_tabs(),
            r.spec_tab_size() == self.spec_tab_size(),
    {
        PrettyPrint { compact, ..self }
    }

    /// The width of the current indentation.
    pub fn spaces(&self) -> (r: usize)
        requires
            self.spec_spaces() <= usize::MAX,
        ensures
            r == self.spec_spaces(),
    {
        if self.compact {
            0
        } else if self.use_tabs {
            self.indent
        } else {
            self.indent * self.tab_size
        }
    }

    /// The indentation text (empty when `indent` is false).
    pub fn fill(&self, indent: bool) -> (r: String)
        requires
            self.spec_spaces() <= usize::MAX,
        ensures
            !indent ==> r@.len() == 0,
            indent ==> r@ == Seq::new(
                self.spec_spaces() as nat,
                |i: int| if self.spec_use_tabs() { '\t' } else { ' ' },
            ),
    {
        if !indent {
            return String::new();
        }
        let n = self.spaces();
        let unit = if self.use_tabs { "\t" } else { " " };
        let ghost c = if self.use_tabs { '\t' } else { ' ' };
        proof {
            reveal_strlit("\t");
            reveal_strlit(" ");
        }
        assert(unit@ =~= seq![c]);
        let mut result = String::new();
        let mut i: usize = 0;
        while i < n
            invariant
                i <= n,
                unit@ == seq![c],
                result@ =~= Seq::new(i as nat, |k: int| c),
            decreases n - i,
        {
            result = result.concat(unit);
            i = i + 1;
        }
        result
    }

    /// A line break, or nothing when compact.
    pub fn newline(&self) -> (r: String)
        ensures
            r@ == (if self.spec_compact() { ""@ } else { "\n"@ }),
    {
        if self.compact {
            String::from_str("")
        } else {
            String::from_str("\n")
        }
    }
}

impl Default for PrettyPrint {
    fn default() -> (r: Self)
        ensures
            r.spec_indent() == 0,
            !r.spec_use_tabs(),
            !r.spec_compact(),
            r.spec_tab_size() == 3,
    {
        PrettyPrint::new()
    }
}

} // verus!
