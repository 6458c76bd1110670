//! The data model of the intrinsic reference catalog: one record per known
//! intrinsic (name, call signature, required CPU feature flags, description,
//! and operational pseudocode), partitioned into seven fixed instruction-set
//! categories.

use vstd::prelude::*;
use vstd::string::StringExecFns;

verus! {

/// One formal parameter of an intrinsic's call signature.
#[derive(Debug, PartialEq, Eq)]
pub struct FunctionParam {
    pub name: String,
    pub arg_type: String,
}

/// The CPU feature flags required to execute an intrinsic.
#[derive(Debug, PartialEq, Eq)]
pub struct Synopsis {
    pub cpuids: Vec<String>,
}

/// An intrinsic's call signature; `name` is the canonical identifier used for
/// matching and catalog lookup.
#[derive(Debug, PartialEq, Eq)]
pub struct Signature {
    pub name: String,
    pub params: Vec<FunctionParam>,
    pub rettype: String,
}

/// One catalog record.
#[derive(Debug, PartialEq, Eq)]
pub struct Intrinsic {
    pub instruction: String,
    pub signature: Signature,
    pub synopsis: Synopsis,
    pub description: String,
    pub operation: String,
}

/// The reference catalog: every known intrinsic, partitioned into seven fixed
/// instruction-set categories.  Category membership is informational only and
/// does not affect matching.
#[derive(Debug, PartialEq, Eq)]
pub struct Intrinsics {
    pub avx_512: Vec<Intrinsic>,
    pub other: Vec<Intrinsic>,
    pub sse_all: Vec<Intrinsic>,
    pub avx_all: Vec<Intrinsic>,
    pub svml: Vec<Intrinsic>,
    pub mmx: Vec<Intrinsic>,
    pub amx: Vec<Intrinsic>,
}

/// Mathematical model of a `FunctionParam`.
#[verifier::ext_equal]
pub ghost struct ParamView {
    pub name: Seq<char>,
    pub arg_type: Seq<char>,
}

/// Mathematical model of a `Synopsis`.
#[verifier::ext_equal]
pub ghost struct SynopsisView {
    pub cpuids: Seq<Seq<char>>,
}

/// Mathematical model of a `Signature`.
#[verifier::ext_equal]
pub ghost struct SignatureView {
    pub name: Seq<char>,
    pub params: Seq<ParamView>,
    pub rettype: Seq<char>,
}

/// Mathematical model of an `Intrinsic`.
#[verifier::ext_equal]
pub ghost struct IntrinsicView {
    pub instruction: Seq<char>,
    pub signature: SignatureView,
    pub synopsis: SynopsisView,
    pub description: Seq<char>,
    pub operation: Seq<char>,
}

impl View for FunctionParam {
    type V = ParamView;

    open spec fn view(&self) -> ParamView {
        ParamView { name: self.name@, arg_type: self.arg_type@ }
    }
}

impl View for Synopsis {
    type V = SynopsisView;

    open spec fn view(&self) -> SynopsisView {
        SynopsisView { cpuids: self.cpuids@.map_values(|s: String| s@) }
    }
}

impl View for Signature {
    type V = SignatureView;

    open spec fn view(&self) -> SignatureView {
        SignatureView {
            name: self.name@,
            params: self.params@.map_values(|p: FunctionParam| p@),
            rettype: self.rettype@,
        }
    }
}

impl View for Intrinsic {
    type V = IntrinsicView;

    open spec fn view(&self) -> IntrinsicView {
        IntrinsicView {
            instruction: self.instruction@,
            signature: self.signature@,
            synopsis: self.synopsis@,
            description: self.description@,
            operation: self.operation@,
        }
    }
}

/// The models of a sequence of records, in order.
pub open spec fn views_of_intrinsics(s: Seq<Intrinsic>) -> Seq<IntrinsicView> {
    s.map_values(|x: Intrinsic| x@)
}

/// All catalog records in the canonical enumeration order of the seven
/// categories; a later record overrides an earlier one in the name index.
pub open spec fn catalog_order(raw: Intrinsics) -> Seq<IntrinsicView> {
    views_of_intrinsics(raw.avx_512@) + views_of_intrinsics(raw.other@) + views_of_intrinsics(
        raw.sse_all@,
    ) + views_of_intrinsics(raw.avx_all@) + views_of_intrinsics(raw.svml@) + views_of_intrinsics(
        raw.mmx@,
    ) + views_of_intrinsics(raw.amx@)
}

impl FunctionParam {
    /// An exact copy.
    pub fn duplicate(&self) -> (r: FunctionParam)
        ensures
            r == *self,
    {
        FunctionParam { name: self.name.clone(), arg_type: self.arg_type.clone() }
    }
}

impl Synopsis {
    /// A copy with the same model.
    pub fn duplicate(&self) -> (r: Synopsis)
        ensures
            r@ == self@,
    {
        let mut cpuids: Vec<String> = Vec::new();
        let n = self.cpuids.len();
        let mut i: usize = 0;
        while i < n
            invariant
                n == self.cpuids@.len(),
                i <= n,
                cpuids@.len() == i,
                forall|k: int| 0 <= k < i ==> cpuids@[k] == self.cpuids@[k],
            decreases n - i,
        {
            cpuids.push(self.cpuids[i].clone());
            i = i + 1;
        }
        let r = Synopsis { cpuids };
        proof {
            assert(r@.cpuids =~= self@.cpuids);
            assert(r@ =~~= self@);
        }
        r
    }
}

impl Signature {
    /// A copy with the same model.
    pub fn duplicate(&self) -> (r: Signature)
        ensures
            r@ == self@,
    {
        let mut params: Vec<FunctionParam> = Vec::new();
        let n = self.params.len();
        let mut i: usize = 0;
        while i < n
            invariant
                n == self.params@.len(),
                i <= n,
                params@.len() == i,
                forall|k: int| 0 <= k < i ==> params@[k] == self.params@[k],
            decreases n - i,
        {
            params.push(self.params[i].duplicate());
            i = i + 1;
        }
        let r = Signature { name: self.name.clone(), params, rettype: self.rettype.clone() };
        proof {
            assert(r@.params =~= self@.params);
            assert(r@ =~~= self@);
        }
        r
    }
}

impl Intrinsic {
    /// A copy with the same model.
    pub fn duplicate(&self) -> (r: Intrinsic)
        ensures
            r@ == self@,
    {
        let r = Intrinsic {
            instruction: self.instruction.clone(),
            signature: self.signature.duplicate(),
            synopsis: self.synopsis.duplicate(),
            description: self.description.clone(),
            operation: self.operation.clone(),
        };
        proof {
            assert(r@ =~~= self@);
        }
        r
    }
}

/// The terminal-highlighted rendering of one parameter: its type, a space,
/// its name, and a separating comma unless it is the last parameter.
pub open spec fn rendered_param(p: ParamView, last: bool) -> Seq<char> {
    "\x1b[35m"@ + p.arg_type + "\x1b[0m\x1b[1m"@ + " "@ + p.name + (if last {
        Seq::<char>::empty()
    } else {
        ", "@
    })
}

/// The rendering of the parameters from position `i` on.
pub open spec fn rendered_params_from(params: Seq<ParamView>, i: int) -> Seq<char>
    decreases params.len() - i,
{
    if i < 0 || i >= params.len() {
        Seq::<char>::empty()
    } else {
        rendered_param(params[i], i == params.len() - 1) + rendered_params_from(params, i + 1)
    }
}

/// Everything before the parameter list: highlighting codes, the return type,
/// a space, the name, and the opening parenthesis.
pub open spec fn rendered_sig_head(sig: SignatureView) -> Seq<char> {
    "\x1b[1m\x1b[35m"@ + sig.rettype + " "@ + "\x1b[33m"@ + sig.name + "("@ + "\x1b[0m\x1b[1m"@
}

/// Everything after the parameter list: the closing parenthesis and the
/// highlighting reset.
pub open spec fn rendered_sig_tail() -> Seq<char> {
    "\x1b[33m\x1b[1m"@ + ")"@ + "\x1b[0m"@
}

/// The full display rendering of a signature: return type, name, and the
/// comma-separated "type name" parameter pairs, with no comma after the last
/// parameter, wrapped in terminal highlighting codes.
pub open spec fn rendered_sig(sig: SignatureView) -> Seq<char> {
    rendered_sig_head(sig) + rendered_params_from(sig.params, 0) + rendered_sig_tail()
}

impl Signature {
    /// Renders the signature for display.
    pub fn to_string(&self) -> (r: String)
        ensures
            r@ == rendered_sig(self@),
    {
        let mut r = String::new();
        r.append("\x1b[1m\x1b[35m");
        r.append(self.rettype.as_str());
        r.append(" ");
        r.append("\x1b[33m");
        r.append(self.name.as_str());
        r.append("(");
        r.append("\x1b[0m\x1b[1m");
        proof {
            assert(r@ =~= rendered_sig_head(self@));
        }
        let n = self.params.len();
        let mut i: usize = 0;
        while i < n
            invariant
                n == self.params@.len(),
                n == self@.params.len(),
                i <= n,
                rendered_sig(self@) == r@ + rendered_params_from(self@.params, i as int)
                    + rendered_sig_tail(),
            decreases n - i,
        {
            let ghost prev = r@;
            let p = &self.params[i];
            r.append("\x1b[35m");
            r.append(p.arg_type.as_str());
            r.append("\x1b[0m\x1b[1m");
            r.append(" ");
            r.append(p.name.as_str());
            if i != n - 1 {
                r.append(", ");
            }
            proof {
                let pv = self@.params[i as int];
                assert(pv == self.params@[i as int]@);
                assert(r@ =~= prev + rendered_param(pv, i as int == n - 1));
                assert(prev + (rendered_param(pv, i as int == n - 1) + rendered_params_from(
                    self@.params,
                    i as int + 1,
                )) =~= (prev + rendered_param(pv, i as int == n - 1)) + rendered_params_from(
                    self@.params,
                    i as int + 1,
                ));
            }
            i = i + 1;
        }
        proof {
            assert(rendered_params_from(self@.params, n as int) =~= Seq::<char>::empty());
            assert(r@ + rendered_params_from(self@.params, n as int) =~= r@);
        }
        let ghost before_tail = r@;
        r.append("\x1b[33m\x1b[1m");
        r.append(")");
        r.append("\x1b[0m");
        proof {
            assert(r@ =~= before_tail + rendered_sig_tail());
        }
        r
    }
}

} // verus!
