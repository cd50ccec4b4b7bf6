//! Argument lists for the programs that do the work elsewhere.
//!
//! Every argument is an entry of its own, so no text is ever interpreted by a
//! shell.

use vstd::prelude::*;

use crate::text::push_decimal;
#[allow(unused_imports)]
use crate::text::decimal;

verus! {

/// One argument. File names stay out of the list: they need not be text.
pub enum Arg {
    Text(String),
    /// The name of the file that is read.
    Input,
    /// The name of the file that is written.
    Output,
}

/// One argument, as contracts see it.
pub enum ArgView {
    Text(Seq<char>),
    Input,
    Output,
}

impl View for Arg {
    type V = ArgView;

    open spec fn view(&self) -> ArgView {
        match self {
            Arg::Text(s) => ArgView::Text(s@),
            Arg::Input => ArgView::Input,
            Arg::Output => ArgView::Output,
        }
    }
}

/// The text `s` as an argument.
pub open spec fn word(s: Seq<char>) -> ArgView {
    ArgView::Text(s)
}

/// A list of arguments, as contracts see it.
pub open spec fn args_of(list: Seq<Arg>) -> Seq<ArgView> {
    Seq::new(list.len(), |i: int| list[i]@)
}

/// A list of arguments under construction.
pub struct ArgList {
    args: Vec<Arg>,
}

impl View for ArgList {
    type V = Seq<ArgView>;

    closed spec fn view(&self) -> Seq<ArgView> {
        args_of(self.args@)
    }
}

impl ArgList {
    pub fn new() -> (a: Self)
        ensures
            a@ == Seq::<ArgView>::empty(),
    {
        let a = ArgList { args: Vec::new() };
        assert(a@ =~= Seq::<ArgView>::empty());
        a
    }

    fn push(&mut self, arg: Arg)
        ensures
            final(self)@ == old(self)@.push(arg@),
    {
        self.args.push(arg);
        assert(self@ =~= old(self)@.push(arg@));
    }

    /// Add a text.
    pub fn text(&mut self, s: &str)
        ensures
            final(self)@ == old(self)@.push(word(s@)),
    {
        self.push(Arg::Text(s.to_string()));
    }

    /// Add a number.
    pub fn number(&mut self, n: u64)
        ensures
            final(self)@ == old(self)@.push(word(decimal(n as nat))),
    {
        let mut s = String::new();
        push_decimal(&mut s, n);
        assert(s@ =~= decimal(n as nat));
        self.push(Arg::Text(s));
    }

    /// Add the name of the file that is read.
    pub fn input(&mut self)
        ensures
            final(self)@ == old(self)@.push(ArgView::Input),
    {
        self.push(Arg::Input);
    }

    /// Add the name of the file that is written.
    pub fn output(&mut self)
        ensures
            final(self)@ == old(self)@.push(ArgView::Output),
    {
        self.push(Arg::Output);
    }

    /// The finished list.
    pub fn finish(self) -> (list: Vec<Arg>)
        ensures
            args_of(list@) == self@,
    {
        self.args
    }
}

/// An argument is seen as what it is, in its place.
pub proof fn law_arguments(list: Seq<Arg>, i: int, s: String)
    requires
        0 <= i < list.len(),
    ensures
        args_of(list).len() == list.len(),
        args_of(list)[i] == list[i]@,
        Arg::Text(s)@ == word(s@),
        Arg::Input@ == ArgView::Input,
        Arg::Output@ == ArgView::Output,
        word(s@) == ArgView::Text(s@),
{
}

} // verus!
