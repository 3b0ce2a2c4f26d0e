//! The binding emitter: renders the single generated C++ source text
//! that exposes the gathered headers and the extracted signatures to a
//! foreign caller.
//!
//! The rendered text is, in fixed order: a short comment header, the
//! opening of an `extern "C"` block guarded by `#ifdef __cplusplus`, one
//! `#include` directive per gathered header in traversal order, one
//! zero-argument wrapper stub per extracted signature whose name does
//! not begin with the reserved internal prefix, and the close of the
//! block.  Every byte of the output is pinned by the specification
//! functions below.
//!
//! The wrapper stubs deliberately forward no arguments: the extractor
//! does not model parameter lists, so a stub is only correct for a
//! truly zero-argument declaration.  That limitation is documented
//! behaviour, not something the emitter tries to repair.

use vstd::prelude::*;

use crate::text::spec_starts_with;
use crate::text::str_starts_with;

verus! {

/// One extracted signature, paired with the header it came from.
/// `template_prefix` is empty for a non-generic declaration; the name is
/// a bare identifier; the return type is the verbatim token run before
/// the name, trimmed.  Overloads are not deduplicated.
pub struct FunctionSignature {
    pub template_prefix: String,
    pub return_type: String,
    pub name: String,
    pub origin_header: String,
}

/// The mathematical content of a signature: its four texts.
pub struct SignatureView {
    pub template_prefix: Seq<char>,
    pub return_type: Seq<char>,
    pub name: Seq<char>,
    pub origin_header: Seq<char>,
}

impl View for FunctionSignature {
    type V = SignatureView;

    open spec fn view(&self) -> SignatureView {
        SignatureView {
            template_prefix: self.template_prefix@,
            return_type: self.return_type@,
            name: self.name@,
            origin_header: self.origin_header@,
        }
    }
}

impl DeepView for FunctionSignature {
    type V = SignatureView;

    open spec fn deep_view(&self) -> SignatureView {
        self.view()
    }
}

impl FunctionSignature {
    /// Pairs one extractor record with the header it came from.
    pub fn from_record(record: (String, String, String), origin_header: String) -> (s:
        FunctionSignature)
        ensures
            s@.template_prefix == record.0@,
            s@.return_type == record.1@,
            s@.name == record.2@,
            s@.origin_header == origin_header@,
    {
        let (template_prefix, return_type, name) = record;
        FunctionSignature { template_prefix, return_type, name, origin_header }
    }
}

/// One include directive, rendered with the forward-slashed relative
/// path of the header.
pub open spec fn spec_include_line(rel: Seq<char>) -> Seq<char> {
    "#include \""@ + rel + "\"\n"@
}

/// The include block: one directive per gathered header, in order.
pub open spec fn spec_includes_text(paths: Seq<Seq<char>>) -> Seq<char>
    decreases paths.len(),
{
    if paths.len() == 0 {
        Seq::empty()
    } else {
        spec_include_line(paths[0]) + spec_includes_text(paths.drop_first())
    }
}

/// One wrapper stub: a comment naming the originating header, then a
/// zero-argument forwarding function named after the declaration.
pub open spec fn spec_wrapper_text(s: SignatureView) -> Seq<char> {
    "// "@ + s.origin_header + "\n"@ + s.return_type + " "@ + s.name + "_wrapper() { return "@
        + s.name + "(); }\n"@
}

/// Whether a signature is withheld from emission: its name begins with
/// the reserved internal prefix.  An empty prefix withholds nothing.
pub open spec fn spec_denied(name: Seq<char>, deny: Seq<char>) -> bool {
    deny.len() > 0 && spec_starts_with(name, deny)
}

/// The wrapper block: one stub per signature not withheld, in order.
pub open spec fn spec_wrappers_text(sigs: Seq<SignatureView>, deny: Seq<char>) -> Seq<char>
    decreases sigs.len(),
{
    if sigs.len() == 0 {
        Seq::empty()
    } else {
        let rest = spec_wrappers_text(sigs.drop_first(), deny);
        if spec_denied(sigs[0].name, deny) {
            rest
        } else {
            spec_wrapper_text(sigs[0]) + rest
        }
    }
}

/// The fixed text that opens the generated file.
pub open spec fn spec_preamble() -> Seq<char> {
    "// language: C++\n// binding surface for the gathered headers\n#ifdef __cplusplus\nextern \"C\" {\n#endif\n\n"@
}

/// The fixed text that closes the generated file.
pub open spec fn spec_closing() -> Seq<char> {
    "\n#ifdef __cplusplus\n}\n#endif\n"@
}

/// The whole generated binding file, byte for byte.
pub open spec fn spec_bindings_text(
    includes: Seq<Seq<char>>,
    sigs: Seq<SignatureView>,
    deny: Seq<char>,
) -> Seq<char> {
    spec_preamble() + spec_includes_text(includes) + "\n"@ + spec_wrappers_text(sigs, deny)
        + spec_closing()
}

/// Renders the generated binding file for the gathered headers and the
/// extracted signatures.  `internal_prefix` is the reserved prefix whose
/// bearers receive no wrapper; pass it empty to wrap everything.
pub fn render_bindings(
    include_paths: &Vec<String>,
    signatures: &Vec<FunctionSignature>,
    internal_prefix: &str,
) -> (out: String)
    ensures
        out@ == spec_bindings_text(
            include_paths.deep_view(),
            signatures.deep_view(),
            internal_prefix@,
        ),
{
    let ghost incs = include_paths.deep_view();
    let ghost sigs = signatures.deep_view();
    let mut out: String = String::from_str(
        "// language: C++\n// binding surface for the gathered headers\n#ifdef __cplusplus\nextern \"C\" {\n#endif\n\n",
    );
    let n: usize = include_paths.len();
    let mut i: usize = 0;
    proof {
        assert(incs.skip(0) =~= incs);
        assert(out@ + spec_includes_text(incs.skip(0)) =~= spec_preamble() + spec_includes_text(
            incs,
        ));
    }
    while i < n
        invariant
            i <= n,
            n == include_paths@.len(),
            incs == include_paths.deep_view(),
            out@ + spec_includes_text(incs.skip(i as int)) =~= spec_preamble()
                + spec_includes_text(incs),
        decreases n - i,
    {
        let ghost before = out@;
        let ghost rest = incs.skip(i as int);
        out.append("#include \"");
        out.append(include_paths[i].as_str());
        out.append("\"\n");
        proof {
            assert(rest[0] == incs[i as int]);
            assert(rest.drop_first() =~= incs.skip(i + 1 as int));
            assert(out@ =~= before + spec_include_line(incs[i as int]));
            assert(spec_includes_text(rest) == spec_include_line(rest[0]) + spec_includes_text(
                rest.drop_first(),
            ));
            assert(out@ + spec_includes_text(incs.skip(i + 1 as int)) =~= before
                + spec_includes_text(rest));
        }
        i = i + 1;
    }
    proof {
        assert(incs.skip(n as int) =~= Seq::<Seq<char>>::empty());
        assert(out@ =~= spec_preamble() + spec_includes_text(incs));
    }
    out.append("\n");
    let deny_active: bool = internal_prefix.unicode_len() > 0;
    let ghost mid = spec_preamble() + spec_includes_text(incs) + "\n"@;
    let m: usize = signatures.len();
    let mut j: usize = 0;
    proof {
        assert(sigs.skip(0) =~= sigs);
        assert(out@ + spec_wrappers_text(sigs.skip(0), internal_prefix@) =~= mid
            + spec_wrappers_text(sigs, internal_prefix@));
    }
    while j < m
        invariant
            j <= m,
            m == signatures@.len(),
            sigs == signatures.deep_view(),
            deny_active == (internal_prefix@.len() > 0),
            out@ + spec_wrappers_text(sigs.skip(j as int), internal_prefix@) =~= mid
                + spec_wrappers_text(sigs, internal_prefix@),
        decreases m - j,
    {
        let ghost before = out@;
        let ghost rest = sigs.skip(j as int);
        proof {
            assert(rest[0] == sigs[j as int]);
            assert(rest.drop_first() =~= sigs.skip(j + 1 as int));
            assert(sigs[j as int] == signatures@[j as int]@);
        }
        let sig: &FunctionSignature = &signatures[j];
        let denied: bool = deny_active && str_starts_with(sig.name.as_str(), internal_prefix);
        if !denied {
            out.append("// ");
            out.append(sig.origin_header.as_str());
            out.append("\n");
            out.append(sig.return_type.as_str());
            out.append(" ");
            out.append(sig.name.as_str());
            out.append("_wrapper() { return ");
            out.append(sig.name.as_str());
            out.append("(); }\n");
            proof {
                assert(out@ =~= before + spec_wrapper_text(sigs[j as int]));
                assert(out@ + spec_wrappers_text(sigs.skip(j + 1 as int), internal_prefix@)
                    =~= before + spec_wrappers_text(rest, internal_prefix@));
            }
        } else {
            proof {
                assert(spec_wrappers_text(rest, internal_prefix@) == spec_wrappers_text(
                    rest.drop_first(),
                    internal_prefix@,
                ));
            }
        }
        j = j + 1;
    }
    proof {
        assert(sigs.skip(m as int) =~= Seq::<SignatureView>::empty());
        assert(out@ =~= mid + spec_wrappers_text(sigs, internal_prefix@));
    }
    out.append("\n#ifdef __cplusplus\n}\n#endif\n");
    proof {
        assert(out@ =~= spec_bindings_text(incs, sigs, internal_prefix@));
    }
    out
}

} // verus!
