use vstd::prelude::*;

verus! {

/// One step down a value tree: an array position or an object field name.
#[derive(Clone, Debug)]
pub enum SelectorSegment {
    ArrayIndex(usize),
    ObjectField(String),
}

/// The mathematical form of a [`SelectorSegment`].
pub enum Step {
    Index(nat),
    Field(Seq<char>),
}

impl View for SelectorSegment {
    type V = Step;

    open spec fn view(&self) -> Step {
        match self {
            SelectorSegment::ArrayIndex(i) => Step::Index(*i as nat),
            SelectorSegment::ObjectField(k) => Step::Field(k@),
        }
    }
}

/// The decimal digits of `n`, most significant first.
pub open spec fn decimal(n: nat) -> Seq<char>
    decreases n,
{
    if n < 10 {
        seq![digit_char(n)]
    } else {
        decimal(n / 10).push(digit_char(n % 10))
    }
}

pub open spec fn digit_char(d: nat) -> char {
    (('0' as nat) + d) as char
}

/// The caption of a step: an index in decimal, a field name as it is.
pub open spec fn step_label(s: Step) -> Seq<char> {
    match s {
        Step::Index(i) => decimal(i),
        Step::Field(k) => k,
    }
}

/// The caption of a path: the label of its last step, empty for the root.
pub open spec fn path_label(p: Seq<Step>) -> Seq<char> {
    if p.len() == 0 {
        Seq::empty()
    } else {
        step_label(p.last())
    }
}

fn digit_str(d: usize) -> (r: &'static str)
    requires
        d < 10,
    ensures
        r@ == seq![digit_char(d as nat)],
{
    proof {
        reveal_strlit("0");
        reveal_strlit("1");
        reveal_strlit("2");
        reveal_strlit("3");
        reveal_strlit("4");
        reveal_strlit("5");
        reveal_strlit("6");
        reveal_strlit("7");
        reveal_strlit("8");
        reveal_strlit("9");
    }
    let r = match d {
        0 => "0",
        1 => "1",
        2 => "2",
        3 => "3",
        4 => "4",
        5 => "5",
        6 => "6",
        7 => "7",
        8 => "8",
        _ => "9",
    };
    assert(r@ =~= seq![digit_char(d as nat)]);
    r
}

/// Writes `n` in decimal.
pub fn decimal_string(n: usize) -> (r: String)
    ensures
        r@ == decimal(n as nat),
    decreases n,
{
    if n < 10 {
        String::from_str(digit_str(n))
    } else {
        let mut r = decimal_string(n / 10);
        r.append(digit_str(n % 10));
        proof {
            assert(r@ =~= decimal(n as nat));
        }
        r
    }
}

impl SelectorSegment {
    /// A copy, known to equal `self`.
    pub fn duplicate(&self) -> (r: SelectorSegment)
        ensures
            r == *self,
    {
        match self {
            SelectorSegment::ArrayIndex(i) => SelectorSegment::ArrayIndex(*i),
            SelectorSegment::ObjectField(k) => SelectorSegment::ObjectField(k.clone()),
        }
    }

    /// The caption of this step.
    pub fn label(&self) -> (r: String)
        ensures
            r@ == step_label(self@),
    {
        match self {
            SelectorSegment::ArrayIndex(i) => decimal_string(*i),
            SelectorSegment::ObjectField(k) => k.clone(),
        }
    }
}

/// A path from the root of a value tree to one of its nodes; the empty
/// selector is the root.
#[derive(Clone, Debug)]
pub struct Selector(Vec<SelectorSegment>);

impl View for Selector {
    type V = Seq<Step>;

    closed spec fn view(&self) -> Seq<Step> {
        self.0@.map_values(|s: SelectorSegment| s@)
    }
}

impl Selector {
    /// The segments of this selector, first step first.
    pub closed spec fn segments(&self) -> Seq<SelectorSegment> {
        self.0@
    }

    pub proof fn lemma_view(&self)
        ensures
            self@.len() == self.segments().len(),
            forall|i: int| 0 <= i < self@.len() ==> #[trigger] self@[i] == self.segments()[i]@,
    {
    }

    /// The root selector.
    pub fn empty() -> (r: Selector)
        ensures
            r.segments() == Seq::<SelectorSegment>::empty(),
            r@ == Seq::<Step>::empty(),
    {
        let r = Selector(Vec::new());
        assert(r@ =~= Seq::<Step>::empty());
        r
    }

    /// A new selector one step further down; `self` is left as it was.
    pub fn push(&self, segment: SelectorSegment) -> (r: Selector)
        ensures
            r.segments() == self.segments().push(segment),
            r@ == self@.push(segment@),
    {
        let mut new: Vec<SelectorSegment> = Vec::new();
        let mut i: usize = 0;
        while i < self.0.len()
            invariant
                i <= self.0@.len(),
                new@ == self.0@.subrange(0, i as int),
            decreases self.0@.len() - i,
        {
            new.push(self.0[i].duplicate());
            i = i + 1;
            assert(new@ =~= self.0@.subrange(0, i as int));
        }
        assert(new@ =~= self.0@);
        new.push(segment);
        let r = Selector(new);
        assert(r@ =~= self@.push(segment@));
        r
    }

    /// A new selector one step up; the root stays the root.
    pub fn pop(&self) -> (r: Selector)
        ensures
            self.segments().len() == 0 ==> r.segments() == self.segments(),
            self.segments().len() > 0 ==> r.segments() == self.segments().drop_last(),
            r@ == if self@.len() == 0 { self@ } else { self@.drop_last() },
    {
        let mut new: Vec<SelectorSegment> = Vec::new();
        let n: usize = if self.0.len() == 0 { 0 } else { self.0.len() - 1 };
        let mut i: usize = 0;
        while i < n
            invariant
                n <= self.0@.len(),
                i <= n,
                new@ == self.0@.subrange(0, i as int),
            decreases n - i,
        {
            new.push(self.0[i].duplicate());
            i = i + 1;
            assert(new@ =~= self.0@.subrange(0, i as int));
        }
        let r = Selector(new);
        assert(r.0@ =~= self.0@.subrange(0, n as int));
        if self.0.len() == 0 {
            assert(r@ =~= self@);
        } else {
            assert(r.0@ =~= self.0@.drop_last());
            assert(r@ =~= self@.drop_last());
        }
        r
    }

    /// The number of steps from the root.
    pub fn len(&self) -> (r: usize)
        ensures
            r == self@.len(),
    {
        self.0.len()
    }

    /// The step at position `i`.
    pub fn segment(&self, i: usize) -> (r: &SelectorSegment)
        requires
            i < self@.len(),
        ensures
            *r == self.segments()[i as int],
            r@ == self@[i as int],
    {
        &self.0[i]
    }

    /// The caption shown beside a widget: the last step only.
    pub fn label(&self) -> (r: String)
        ensures
            r@ == path_label(self@),
    {
        if self.0.len() == 0 {
            String::new()
        } else {
            self.0[self.0.len() - 1].label()
        }
    }

    /// A copy, known to equal `self`.
    pub fn duplicate(&self) -> (r: Selector)
        ensures
            r.segments() == self.segments(),
            r@ == self@,
    {
        let mut new: Vec<SelectorSegment> = Vec::new();
        let mut i: usize = 0;
        while i < self.0.len()
            invariant
                i <= self.0@.len(),
                new@ == self.0@.subrange(0, i as int),
            decreases self.0@.len() - i,
        {
            new.push(self.0[i].duplicate());
            i = i + 1;
            assert(new@ =~= self.0@.subrange(0, i as int));
        }
        assert(new@ =~= self.0@);
        let r = Selector(new);
        assert(r@ =~= self@);
        r
    }
}

} // verus!
