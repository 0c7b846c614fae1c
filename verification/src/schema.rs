//! Schema resolution: from an ordered list of flag declarations to a fixed
//! mapping of each flag to a bit index, together with the encoded widths.

use vstd::prelude::*;

verus! {

/// How bit indices are assigned to the declared flags.
#[derive(Clone, Copy, Debug, PartialEq, Eq, Structural)]
pub enum Mode {
    /// Indices follow declaration order, contiguous from 0.
    Implicit,
    /// Every declaration carries its own index, possibly sparse and out of
    /// declaration order.
    Explicit,
}

/// One flag declaration: a name, and in explicit mode the bit index the flag
/// occupies.  In implicit mode `index` is ignored.
#[derive(Debug)]
pub struct FlagDecl {
    pub name: String,
    pub index: Option<usize>,
}

/// What can go wrong while resolving a schema or while decoding.
#[derive(Debug)]
pub enum SchemaError {
    /// Explicit mode: the named flag carries no index.
    MissingIndex { name: String },
    /// Explicit mode with a width override: the offending index does not fit
    /// below the overriding `total_bits`.
    IndexOutOfRange { index: usize, total_bits: usize },
    /// A decode was handed a buffer whose length differs from the width the
    /// schema calls for.
    SizeMismatch { expected: usize, actual: usize },
}

/// The fixed outcome of resolving one list of declarations: the bit index and
/// name of every flag in declaration order, and the two derived widths.
pub struct ResolvedSchema {
    /// Flag names, in declaration order.
    pub names: Vec<String>,
    /// `indices[j]` is the bit index of the flag declared at position `j`.
    pub indices: Vec<usize>,
    /// Width of the boolean-array form, in slots.
    pub total_bits: usize,
    /// Width of the byte-packed form, in bytes: enough whole bytes for
    /// `total_bits` bits.
    pub total_bytes: usize,
}

/// How many whole bytes hold `bits` bits.
pub open spec fn bytes_for_bits(bits: int) -> int {
    bits / 8 + if bits % 8 == 0 { 0int } else { 1int }
}

impl ResolvedSchema {
    /// Number of flags in the schema.
    pub open spec fn flag_count(self) -> nat {
        self.indices@.len()
    }

    /// Every resolved schema keeps one name per index, every index below the
    /// array width, and a byte width that covers the bit width.
    pub open spec fn wf(self) -> bool {
        &&& self.names@.len() == self.indices@.len()
        &&& forall|j: int|
            0 <= j < self.indices@.len() ==> (#[trigger] self.indices@[j]) < self.total_bits
        &&& bytes_for_bits(self.total_bits as int) <= self.total_bytes
    }

    /// No two flags share a bit index.
    pub open spec fn no_collision(self) -> bool {
        forall|a: int, b: int|
            0 <= a < b < self.indices@.len() ==> #[trigger] self.indices@[a] != #[trigger] self.indices@[b]
    }
}

/// Every declaration carries an explicit index.
pub open spec fn all_indexed(decls: Seq<FlagDecl>) -> bool {
    forall|j: int| 0 <= j < decls.len() ==> (#[trigger] decls[j].index) is Some
}

/// The bit width the declared indices need on their own: one more than the
/// largest declared index, or 0 for an empty list.
pub open spec fn needed_bits(decls: Seq<FlagDecl>) -> int
    recommends
        all_indexed(decls),
    decreases decls.len(),
{
    if decls.len() == 0 {
        0
    } else {
        let rest = needed_bits(decls.drop_last());
        let last = decls.last().index.unwrap() + 1;
        if last > rest {
            last
        } else {
            rest
        }
    }
}

/// The bit width a resolution of `decls` settles on: the declaration count in
/// implicit mode, the override verbatim when one is supplied, and otherwise
/// the width the declared indices need.
pub open spec fn resolved_bits(decls: Seq<FlagDecl>, mode: Mode, ovr: Option<usize>) -> int {
    if mode is Implicit {
        decls.len() as int
    } else if ovr is Some {
        ovr.unwrap() as int
    } else {
        needed_bits(decls)
    }
}

/// The byte width a resolution of `decls` settles on: whole bytes for
/// [`resolved_bits`] bits, floored to one byte in the degenerate case of an
/// explicit resolution of an empty list without an override.
pub open spec fn resolved_bytes(decls: Seq<FlagDecl>, mode: Mode, ovr: Option<usize>) -> int {
    if mode is Explicit && ovr is None && decls.len() == 0 {
        1
    } else {
        bytes_for_bits(resolved_bits(decls, mode, ovr))
    }
}

/// `s` is the resolution of `decls` under `mode` and override `ovr`: names
/// and indices follow declaration order, and both widths derive from
/// [`resolved_bits`].
pub open spec fn is_resolution(
    decls: Seq<FlagDecl>,
    mode: Mode,
    ovr: Option<usize>,
    s: ResolvedSchema,
) -> bool {
    &&& s.names@.len() == decls.len()
    &&& s.indices@.len() == decls.len()
    &&& forall|j: int| 0 <= j < decls.len() ==> (#[trigger] s.names@[j])@ == decls[j].name@
    &&& (mode is Implicit ==> forall|j: int|
        0 <= j < decls.len() ==> (#[trigger] s.indices@[j]) == j)
    &&& (mode is Explicit ==> forall|j: int|
        0 <= j < decls.len() ==> (#[trigger] s.indices@[j]) == decls[j].index.unwrap())
    &&& s.total_bits == resolved_bits(decls, mode, ovr)
    &&& s.total_bytes == resolved_bytes(decls, mode, ovr)
}

/// One more than the largest declared index bounds every declared index.
proof fn lemma_needed_bits_covers(decls: Seq<FlagDecl>, j: int)
    requires
        0 <= j < decls.len(),
        decls[j].index is Some,
    ensures
        decls[j].index.unwrap() < needed_bits(decls),
    decreases decls.len(),
{
    if j == decls.len() - 1 {
    } else {
        lemma_needed_bits_covers(decls.drop_last(), j);
    }
}

/// Resolves an ordered list of flag declarations to a schema.
///
/// Implicit mode assigns indices 0, 1, ... in declaration order, so the
/// result never collides; no width override is accepted there.  Explicit mode
/// takes each declaration's own index verbatim, failing with
/// [`SchemaError::MissingIndex`] (naming the first flag without an index)
/// when one is absent, and with [`SchemaError::IndexOutOfRange`] (naming the
/// first offending index) when an override is supplied and some index does
/// not fit below it.  An empty explicit list without an override resolves to
/// no array slots but still one byte, the smallest unit the byte form can
/// express.
#[verifier::loop_isolation(false)]
pub fn resolve(decls: &Vec<FlagDecl>, mode: Mode, total_bits_override: Option<usize>) -> (r:
    Result<ResolvedSchema, SchemaError>)
    requires
        mode is Implicit ==> total_bits_override is None,
        mode is Explicit && total_bits_override is None ==> forall|j: int|
            0 <= j < decls@.len() ==> ((#[trigger] decls@[j].index) is Some ==> decls@[j].index.unwrap() < usize::MAX),
    ensures
        mode is Implicit ==> r is Ok,
        mode is Explicit ==> ((r matches Err(SchemaError::MissingIndex { .. })) <==> !all_indexed(
            decls@,
        )),
        mode is Explicit ==> ((r matches Err(SchemaError::IndexOutOfRange { .. })) <==> (
        all_indexed(decls@) && total_bits_override is Some && exists|j: int|
            0 <= j < decls@.len() && (#[trigger] decls@[j].index).unwrap()
                >= total_bits_override.unwrap())),
        r matches Err(e) ==> (e matches SchemaError::MissingIndex { name } ==> exists|k: int|
            {
                &&& 0 <= k < decls@.len()
                &&& (#[trigger] decls@[k].index) is None
                &&& forall|j: int| 0 <= j < k ==> (#[trigger] decls@[j].index) is Some
                &&& name@ == decls@[k].name@
            }),
        r matches Err(e) ==> (e matches SchemaError::IndexOutOfRange { index, total_bits }
            ==> {
            &&& total_bits_override == Some(total_bits)
            &&& exists|k: int|
                {
                    &&& 0 <= k < decls@.len()
                    &&& (#[trigger] decls@[k].index) == Some(index)
                    &&& index >= total_bits
                    &&& forall|j: int|
                        0 <= j < k ==> (#[trigger] decls@[j].index) is Some
                            && decls@[j].index.unwrap() < total_bits
                }
        }),
        r matches Err(e) ==> !(e matches SchemaError::SizeMismatch { .. }),
        r matches Ok(s) ==> is_resolution(decls@, mode, total_bits_override, s) && s.wf(),
        mode is Implicit ==> (r matches Ok(s) ==> s.no_collision()),
{
    let ghost gdecls = decls@;
    let n = decls.len();
    let mut names: Vec<String> = Vec::new();
    let mut indices: Vec<usize> = Vec::new();
    let total_bits: usize;
    match mode {
        Mode::Implicit => {
            for j in 0..n
                invariant
                    decls@ == gdecls,
                    n == gdecls.len(),
                    names@.len() == j,
                    indices@.len() == j,
                    forall|i: int| 0 <= i < j ==> (#[trigger] names@[i])@ == gdecls[i].name@,
                    forall|i: int| 0 <= i < j ==> (#[trigger] indices@[i]) == i,
            {
                names.push(decls[j].name.clone());
                indices.push(j);
            }
            total_bits = n;
        },
        Mode::Explicit => {
            for j in 0..n
                invariant
                    decls@ == gdecls,
                    n == gdecls.len(),
                    names@.len() == j,
                    indices@.len() == j,
                    forall|i: int| 0 <= i < j ==> (#[trigger] names@[i])@ == gdecls[i].name@,
                    forall|i: int|
                        0 <= i < j ==> (#[trigger] gdecls[i].index) == Some(indices@[i]),
            {
                match decls[j].index {
                    Some(i) => {
                        names.push(decls[j].name.clone());
                        indices.push(i);
                    },
                    None => {
                        return Err(SchemaError::MissingIndex { name: decls[j].name.clone() });
                    },
                }
            }
            match total_bits_override {
                Some(t) => {
                    for j in 0..n
                        invariant
                            decls@ == gdecls,
                            n == gdecls.len(),
                            indices@.len() == n,
                            forall|i: int|
                                0 <= i < n ==> (#[trigger] gdecls[i].index) == Some(indices@[i]),
                            forall|i: int| 0 <= i < j ==> (#[trigger] indices@[i]) < t,
                    {
                        if indices[j] >= t {
                            proof {
                                assert(0 <= j < gdecls.len() && gdecls[j as int].index == Some(
                                    indices@[j as int],
                                ) && indices@[j as int] >= t && forall|i: int|
                                    0 <= i < j ==> (#[trigger] gdecls[i].index) is Some
                                        && gdecls[i].index.unwrap() < t);
                            }
                            return Err(SchemaError::IndexOutOfRange {
                                index: indices[j],
                                total_bits: t,
                            });
                        }
                    }
                    total_bits = t;
                },
                None => {
                    let mut needed: usize = 0;
                    for j in 0..n
                        invariant
                            decls@ == gdecls,
                            n == gdecls.len(),
                            indices@.len() == n,
                            forall|i: int|
                                0 <= i < n ==> (#[trigger] gdecls[i].index) == Some(indices@[i]),
                            forall|i: int|
                                0 <= i < n ==> (#[trigger] gdecls[i].index) is Some
                                    && gdecls[i].index.unwrap() < usize::MAX,
                            needed == needed_bits(gdecls.take(j as int)),
                    {
                        proof {
                            assert(gdecls[j as int].index == Some(indices@[j as int]));
                        }
                        if indices[j] >= needed {
                            needed = indices[j] + 1;
                        }
                        proof {
                            assert(gdecls.take(j + 1).drop_last() =~= gdecls.take(j as int));
                            assert(gdecls.take(j + 1).last() == gdecls[j as int]);
                        }
                    }
                    proof {
                        assert(gdecls.take(n as int) =~= gdecls);
                    }
                    total_bits = needed;
                    proof {
                        assert forall|j: int| 0 <= j < n implies (#[trigger] indices@[j])
                            < total_bits by {
                            lemma_needed_bits_covers(gdecls, j);
                        }
                    }
                },
            }
        },
    }
    let total_bytes: usize = if mode == Mode::Explicit && total_bits_override.is_none() && n == 0 {
        1
    } else {
        total_bits / 8 + if total_bits % 8 == 0 {
            0
        } else {
            1
        }
    };
    Ok(ResolvedSchema { names, indices, total_bits, total_bytes })
}

} // verus!
