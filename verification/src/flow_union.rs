//! Flow union inference: annotated variables whose assigned value is not
//! compatible with their annotation.
use vstd::prelude::*;

use crate::position::Span;

verus! {

/// What the rule reads of a variable of the module.
pub struct VariableInfo {
    pub name: Vec<char>,
    pub has_annotation: bool,
    /// The error the annotation check reports for this variable, if any.
    pub annotation_error: Option<Vec<char>>,
    pub name_span: Span,
}

/// The variables of a module, by where they are declared.
pub struct ModuleVariables {
    pub module_level: Vec<VariableInfo>,
    /// Locals of each function.
    pub functions: Vec<Vec<VariableInfo>>,
    /// Class-level variables of each class.
    pub classes: Vec<Vec<VariableInfo>>,
}

/// An annotated variable with an incompatible assignment.
pub struct IncompatibleAssignment {
    pub name: Vec<char>,
    pub error: Vec<char>,
    pub span: Span,
}

impl IncompatibleAssignment {
    /// The finding's message.
    pub fn message(&self) -> (r: Vec<char>)
        ensures
            r@ == "Annotated variable '"@ + self.name@ + "' has incompatible assignment: "@ + self.error@,
    {
        let mut m = crate::text::chars_of("Annotated variable '");
        crate::text::push_chars(&mut m, self.name.as_slice());
        crate::text::push_lit(&mut m, "' has incompatible assignment: ");
        crate::text::push_chars(&mut m, self.error.as_slice());
        m
    }
}

pub struct IncompatibleV {
    pub name: Seq<char>,
    pub error: Seq<char>,
    pub span: (nat, nat),
}

pub open spec fn incompatible_view(d: IncompatibleAssignment) -> IncompatibleV {
    IncompatibleV { name: d.name@, error: d.error@, span: (d.span.start as nat, d.span.end as nat) }
}

pub open spec fn incompatibles_view(v: Seq<IncompatibleAssignment>) -> Seq<IncompatibleV> {
    v.map_values(|d: IncompatibleAssignment| incompatible_view(d))
}

/// The report for one variable: annotated and failing its check.
pub open spec fn var_report(v: VariableInfo) -> Seq<IncompatibleV> {
    if v.has_annotation {
        match v.annotation_error {
            Some(e) => seq![
                IncompatibleV {
                    name: v.name@,
                    error: e@,
                    span: (v.name_span.start as nat, v.name_span.end as nat),
                },
            ],
            None => Seq::empty(),
        }
    } else {
        Seq::empty()
    }
}

pub open spec fn vars_report(vs: Seq<VariableInfo>) -> Seq<IncompatibleV>
    decreases vs.len(),
{
    if vs.len() == 0 {
        Seq::empty()
    } else {
        vars_report(vs.drop_last()) + var_report(vs.last())
    }
}

pub open spec fn groups_report(gs: Seq<Vec<VariableInfo>>) -> Seq<IncompatibleV>
    decreases gs.len(),
{
    if gs.len() == 0 {
        Seq::empty()
    } else {
        groups_report(gs.drop_last()) + vars_report(gs.last()@)
    }
}

/// Module-level variables first, then each function's locals, then each
/// class's variables.
pub open spec fn module_report(m: ModuleVariables) -> Seq<IncompatibleV> {
    vars_report(m.module_level@) + groups_report(m.functions@) + groups_report(m.classes@)
}

fn report_vars(vs: &Vec<VariableInfo>, out: &mut Vec<IncompatibleAssignment>)
    ensures
        incompatibles_view(final(out)@) == incompatibles_view(old(out)@) + vars_report(vs@),
{
    let ghost o0 = incompatibles_view(out@);
    let mut i: usize = 0;
    proof {
        assert(vs@.take(0) =~= Seq::<VariableInfo>::empty());
        assert(incompatibles_view(out@) =~= o0 + vars_report(vs@.take(0)));
    }
    while i < vs.len()
        invariant
            i <= vs@.len(),
            incompatibles_view(out@) == o0 + vars_report(vs@.take(i as int)),
        decreases vs.len() - i,
    {
        let ghost before = incompatibles_view(out@);
        proof {
            assert(vs@.take(i + 1).drop_last() =~= vs@.take(i as int));
        }
        let v = &vs[i];
        if v.has_annotation {
            match &v.annotation_error {
                Some(e) => {
                    let d = IncompatibleAssignment {
                        name: v.name.clone(),
                        error: e.clone(),
                        span: v.name_span,
                    };
                    out.push(d);
                    proof {
                        assert(incompatibles_view(out@) =~= before + var_report(vs@[i as int]));
                    }
                },
                None => {
                    proof {
                        assert(incompatibles_view(out@) =~= before + var_report(vs@[i as int]));
                    }
                },
            }
        } else {
            proof {
                assert(incompatibles_view(out@) =~= before + var_report(vs@[i as int]));
            }
        }
        i += 1;
    }
    proof {
        assert(vs@.take(i as int) =~= vs@);
    }
}

fn report_groups(gs: &Vec<Vec<VariableInfo>>, out: &mut Vec<IncompatibleAssignment>)
    ensures
        incompatibles_view(final(out)@) == incompatibles_view(old(out)@) + groups_report(gs@),
{
    let ghost o0 = incompatibles_view(out@);
    let mut i: usize = 0;
    proof {
        assert(gs@.take(0) =~= Seq::<Vec<VariableInfo>>::empty());
        assert(incompatibles_view(out@) =~= o0 + groups_report(gs@.take(0)));
    }
    while i < gs.len()
        invariant
            i <= gs@.len(),
            incompatibles_view(out@) == o0 + groups_report(gs@.take(i as int)),
        decreases gs.len() - i,
    {
        proof {
            assert(gs@.take(i + 1).drop_last() =~= gs@.take(i as int));
        }
        let ghost before = incompatibles_view(out@);
        report_vars(&gs[i], out);
        proof {
            assert(incompatibles_view(out@) =~= o0 + groups_report(gs@.take(i + 1)));
        }
        i += 1;
    }
    proof {
        assert(gs@.take(i as int) =~= gs@);
    }
}

/// The rule that checks annotated variables against their assignments.
pub struct FlowUnionInference;

impl FlowUnionInference {
    /// Every annotated variable whose check failed, module-level variables
    /// first, then function locals, then class variables, each in order.
    pub fn check(&self, module: &ModuleVariables) -> (r: Vec<IncompatibleAssignment>)
        ensures
            incompatibles_view(r@) == module_report(*module),
    {
        let mut out: Vec<IncompatibleAssignment> = Vec::new();
        proof {
            assert(incompatibles_view(out@) =~= Seq::<IncompatibleV>::empty());
        }
        report_vars(&module.module_level, &mut out);
        report_groups(&module.functions, &mut out);
        report_groups(&module.classes, &mut out);
        proof {
            assert(incompatibles_view(out@) =~= module_report(*module));
        }
        out
    }
}

} // verus!
