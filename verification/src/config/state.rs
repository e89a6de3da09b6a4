//! The state module: a warning for each troubling state of the working-copy
//! commit (conflicted, divergent, hidden, immutable, empty).
use vstd::prelude::*;
use crate::config::util::{closing, Color, Style};
use crate::data::JJData;
use crate::text::join;

verus! {

/// How one warning is printed.
pub struct Status {
    /// The text that should be printed when the working copy has the given state.
    pub text: String,
    pub style: Style,
}

/// Prints a warning if the working copy contains any conflicts, is divergent or hidden.
pub struct State {
    /// Text that will be printed between each warning.
    pub separator: String,
    /// Controls how the conflict warning will be rendered.
    pub conflict: Status,
    /// Controls how the divergence warning will be rendered.
    pub divergent: Status,
    /// Controls how the empty warning will be rendered.
    pub empty: Status,
    /// Controls how the immutable warning will be rendered.
    pub immutable: Status,
    /// Controls how the hidden warning will be rendered.
    pub hidden: Status,
}

/// A status with a yellow style.
fn yellow_status(text: &str) -> (r: Status)
    ensures
        r.text@ == text@,
        r.style == (Style { color: Some(Color::Yellow), bg_color: None }),
{
    Status { text: String::from_str(text), style: Style { color: Some(Color::Yellow), bg_color: None } }
}

impl State {
    /// Whether this is the module's default configuration.
    pub open spec fn is_default(self) -> bool {
        &&& self.separator@ == " "@
        &&& self.conflict.text@ == "(CONFLICT)"@
        &&& self.conflict.style == (Style { color: Some(Color::Red), bg_color: None })
        &&& self.divergent.text@ == "(DIVERGENT)"@
        &&& self.divergent.style == (Style { color: Some(Color::Cyan), bg_color: None })
        &&& self.hidden.text@ == "(HIDDEN)"@
        &&& self.hidden.style == (Style { color: Some(Color::Yellow), bg_color: None })
        &&& self.empty.text@ == "(EMPTY)"@
        &&& self.empty.style == (Style { color: Some(Color::Yellow), bg_color: None })
        &&& self.immutable.text@ == "(IMMUTABLE)"@
        &&& self.immutable.style == (Style { color: Some(Color::Yellow), bg_color: None })
    }
}

impl Default for State {
    fn default() -> (r: Self)
        ensures
            r.is_default(),
    {
        State {
            separator: String::from_str(" "),
            conflict: Status {
                text: String::from_str("(CONFLICT)"),
                style: Style { color: Some(Color::Red), bg_color: None },
            },
            divergent: Status {
                text: String::from_str("(DIVERGENT)"),
                style: Style { color: Some(Color::Cyan), bg_color: None },
            },
            hidden: yellow_status("(HIDDEN)"),
            empty: yellow_status("(EMPTY)"),
            immutable: yellow_status("(IMMUTABLE)"),
        }
    }
}

/// `[s]` when `on`, nothing otherwise.
pub open spec fn if_on(on: bool, s: Status) -> Seq<Status> {
    if on {
        seq![s]
    } else {
        Seq::empty()
    }
}

/// One for a state that applies, zero for one that does not.
pub open spec fn count(on: bool) -> int {
    if on {
        1
    } else {
        0
    }
}

/// Each status's text after its escape text and before the escape text
/// that ends the style.
pub open spec fn pieces(sts: Seq<Status>, ps: Seq<Seq<char>>) -> Seq<Seq<char>> {
    Seq::new(sts.len(), |i: int| ps[i] + sts[i].text@ + closing(ps[i]))
}

/// Whether each `ps[i]` can be the escape text of `sts[i]`'s style.
pub open spec fn painted(sts: Seq<Status>, ps: Seq<Seq<char>>) -> bool {
    ps.len() == sts.len() && forall|i: int| 0 <= i < sts.len() ==> (#[trigger] sts[i]).style.paints(ps[i])
}

impl State {
    /// The warnings that apply, in the order in which they are printed.
    pub open spec fn active(self, w: crate::data::CommitWarnings) -> Seq<Status> {
        if_on(w.conflict, self.conflict) + if_on(w.divergent, self.divergent) + if_on(w.hidden, self.hidden)
            + if_on(w.immutable, self.immutable) + if_on(w.empty, self.empty)
    }

    /// Each warning is printed exactly when its state applies, whatever the
    /// others: the conflict warning first when the commit has conflicts, then
    /// the divergent, hidden, immutable and empty warnings, each after those
    /// of the states before it that apply.
    pub proof fn lemma_active(self, w: crate::data::CommitWarnings)
        ensures
            self.active(w).len() == count(w.conflict) + count(w.divergent) + count(w.hidden) + count(w.immutable)
                + count(w.empty),
            w.conflict ==> self.active(w)[0] == self.conflict,
            w.divergent ==> self.active(w)[count(w.conflict)] == self.divergent,
            w.hidden ==> self.active(w)[count(w.conflict) + count(w.divergent)] == self.hidden,
            w.immutable ==> self.active(w)[count(w.conflict) + count(w.divergent) + count(w.hidden)]
                == self.immutable,
            w.empty ==> self.active(w)[count(w.conflict) + count(w.divergent) + count(w.hidden) + count(
                w.immutable,
            )] == self.empty,
    {
        let a = if_on(w.conflict, self.conflict);
        let b = if_on(w.divergent, self.divergent);
        let c = if_on(w.hidden, self.hidden);
        let d = if_on(w.immutable, self.immutable);
        let e = if_on(w.empty, self.empty);
        assert(self.active(w) == a + b + c + d + e);
        assert((a + b + c + d + e).len() == a.len() + b.len() + c.len() + d.len() + e.len());
        if w.divergent {
            assert((a + b + c + d + e)[a.len() as int] == b[0]);
        }
        if w.hidden {
            assert((a + b + c + d + e)[(a.len() + b.len()) as int] == c[0]);
        }
        if w.immutable {
            assert((a + b + c + d + e)[(a.len() + b.len() + c.len()) as int] == d[0]);
        }
        if w.empty {
            assert((a + b + c + d + e)[(a.len() + b.len() + c.len() + d.len()) as int] == e[0]);
        }
    }

    /// The warnings `sts` with escape texts `ps`, separated by the separator
    /// and followed by the module separator; nothing when there are none.
    pub open spec fn text(self, sts: Seq<Status>, ps: Seq<Seq<char>>, module_separator: Seq<char>) -> Seq<char> {
        if sts.len() == 0 {
            Seq::empty()
        } else {
            join(pieces(sts, ps), self.separator@) + module_separator
        }
    }

    /// Whether `d` is what the module prints for the given states.
    pub open spec fn printed(self, w: crate::data::CommitWarnings, module_separator: Seq<char>, d: Seq<char>) -> bool {
        exists|ps: Seq<Seq<char>>| #[trigger] painted(self.active(w), ps) && d == self.text(self.active(w), ps, module_separator)
    }

    /// Printing one more warning adds the separator (unless it is the first)
    /// and the warning.
    proof fn lemma_step(self, sts: Seq<Status>, ps: Seq<Seq<char>>, s: Status, p: Seq<char>)
        requires
            ps.len() == sts.len(),
        ensures
            join(pieces(sts.push(s), ps.push(p)), self.separator@) == join(pieces(sts, ps), self.separator@)
                + (if sts.len() == 0 { Seq::empty() } else { self.separator@ }) + p + s.text@ + closing(p),
    {
        assert(pieces(sts.push(s), ps.push(p)) =~= pieces(sts, ps).push(p + s.text@ + closing(p)));
        crate::text::lemma_join_push(pieces(sts, ps), p + s.text@ + closing(p), self.separator@);
        if sts.len() == 0 {
            assert(join(pieces(sts, ps), self.separator@) =~= Seq::<char>::empty());
        }
    }

    /// Appends the separator unless `first`, then `status`'s escape text and text.
    fn print_status(&self, out: &mut String, status: &Status, first: bool) -> (p: Ghost<Seq<char>>)
        ensures
            status.style.paints(p@),
            final(out)@ == old(out)@ + (if first { Seq::empty() } else { self.separator@ }) + p@ + status.text@ + closing(p@),
    {
        let ghost start = out@;
        if !first {
            out.append(self.separator.as_str());
        }
        let ghost mid = out@;
        let close = status.style.print(out, None);
        let ghost p = out@.skip(mid.len() as int);
        assert(out@ =~= mid + p);
        out.append(status.text.as_str());
        out.append(close.as_str());
        assert(out@ =~= start + (if first { Seq::empty() } else { self.separator@ }) + p + status.text@ + closing(p));
        Ghost(p)
    }

    /// Prints `status` when `on`, keeping track of the warnings printed so far.
    fn print_if(
        &self,
        out: &mut String,
        status: &Status,
        on: bool,
        first: bool,
        Ghost(start): Ghost<Seq<char>>,
        Ghost(sts): Ghost<Seq<Status>>,
        Ghost(ps): Ghost<Seq<Seq<char>>>,
    ) -> (res: (bool, Ghost<Seq<Seq<char>>>))
        requires
            painted(sts, ps),
            first == (sts.len() == 0),
            old(out)@ == start + join(pieces(sts, ps), self.separator@),
        ensures
            painted(sts + if_on(on, *status), res.1@),
            res.0 == ((sts + if_on(on, *status)).len() == 0),
            final(out)@ == start + join(pieces(sts + if_on(on, *status), res.1@), self.separator@),
    {
        if on {
            let p = self.print_status(out, status, first);
            proof {
                self.lemma_step(sts, ps, *status, p@);
                assert(sts + if_on(on, *status) =~= sts.push(*status));
            }
            (false, Ghost(ps.push(p@)))
        } else {
            assert(sts + if_on(on, *status) =~= sts);
            (first, Ghost(ps))
        }
    }

    /// Appends the styled warnings that apply, in the order conflict,
    /// divergent, hidden, immutable, empty, separated by the separator and
    /// followed by the module separator.
    #[verifier::spinoff_prover]
    #[verifier::rlimit(40)]
    pub fn print(&self, out: &mut String, data: &JJData, module_separator: &str)
        ensures
            final(out)@.len() >= old(out)@.len(),
            final(out)@.take(old(out)@.len() as int) == old(out)@,
            self.printed(data.commit.warnings, module_separator@, final(out)@.skip(old(out)@.len() as int)),
    {
        let ghost start = out@;
        let w = &data.commit.warnings;
        let ghost s0: Seq<Status> = Seq::empty();
        assert(out@ =~= start + join(pieces(s0, Seq::empty()), self.separator@));
        let (first, ps) = self.print_if(out, &self.conflict, w.conflict, true, Ghost(start), Ghost(s0), Ghost(Seq::empty()));
        let ghost s1 = s0 + if_on(w.conflict, self.conflict);
        let (first, ps) = self.print_if(out, &self.divergent, w.divergent, first, Ghost(start), Ghost(s1), ps);
        let ghost s2 = s1 + if_on(w.divergent, self.divergent);
        let (first, ps) = self.print_if(out, &self.hidden, w.hidden, first, Ghost(start), Ghost(s2), ps);
        let ghost s3 = s2 + if_on(w.hidden, self.hidden);
        let (first, ps) = self.print_if(out, &self.immutable, w.immutable, first, Ghost(start), Ghost(s3), ps);
        let ghost s4 = s3 + if_on(w.immutable, self.immutable);
        let (first, ps) = self.print_if(out, &self.empty, w.empty, first, Ghost(start), Ghost(s4), ps);
        let ghost s5 = s4 + if_on(w.empty, self.empty);
        let ghost mid = out@;
        if !first {
            out.append(module_separator);
        }
        proof {
            assert(s5 =~= self.active(data.commit.warnings));
            assert(out@.take(start.len() as int) =~= start);
            assert(out@.skip(start.len() as int) =~= self.text(s5, ps@, module_separator@));
        }
    }
}

} // verus!
