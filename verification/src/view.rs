//! Non-owning LWE ciphertext views: windows over caller-owned buffers laid
//! out as mask elements followed by the body, with the same shape contract
//! as the owned form. A shared view reads a ciphertext without copying it;
//! the discarding operations on views write into a caller-owned buffer.

use vstd::prelude::*;
use crate::torus::TorusElement;
use crate::params::LweDimension;
use crate::plaintext::Plaintext;
use crate::lwe::{LweCiphertext, LweSecretKey, dot_key_prefix};

verus! {

/// A shared, non-owning view of an LWE ciphertext: the first `len - 1`
/// elements of the borrowed buffer are the mask, the last is the body.
pub struct LweCiphertextView<'a, T: TorusElement> {
    pub data: &'a [T],
}

impl<'a, T: TorusElement> LweCiphertextView<'a, T> {
    /// The view covers at least the body element.
    pub open spec fn wf(self) -> bool {
        self.data@.len() >= 1
    }

    /// The dimension: one less than the buffer length.
    pub open spec fn dim(self) -> int {
        self.data@.len() - 1
    }

    /// The integer stored by the `i`-th mask element.
    pub open spec fn mask_int(self, i: int) -> int {
        self.data@[i].as_int()
    }

    /// The integer stored by the body.
    pub open spec fn body_int(self) -> int {
        self.data@[self.data@.len() - 1].as_int()
    }

    /// The phase of the viewed ciphertext under `key`.
    pub open spec fn phase(self, key: LweSecretKey<T>) -> int {
        (self.body_int() - dot_key_prefix(self.data@, key.coeffs@, self.dim())) % T::modulus()
    }

    /// Wraps a caller-owned buffer as a ciphertext view.
    pub fn from_container(data: &'a [T]) -> (r: Self)
        requires
            data@.len() >= 1,
        ensures
            r.data@ == data@,
            r.wf(),
    {
        LweCiphertextView { data }
    }

    /// The dimension of the viewed ciphertext.
    pub fn lwe_dimension(&self) -> (r: LweDimension)
        requires
            self.wf(),
        ensures
            r.0 == self.dim(),
    {
        LweDimension(self.data.len() - 1)
    }

    /// Copies the viewed ciphertext into an owned one.
    pub fn to_owned_ciphertext(&self) -> (r: LweCiphertext<T>)
        requires
            self.wf(),
        ensures
            r.dim() == self.dim(),
            forall|i: int| 0 <= i < self.dim() ==> #[trigger] r.mask_int(i) == self.mask_int(i),
            r.body_int() == self.body_int(),
    {
        let n = self.data.len() - 1;
        let mut mask: Vec<T> = Vec::new();
        let mut i: usize = 0;
        while i < n
            invariant
                i <= n,
                mask@.len() == i,
                n == self.data@.len() - 1,
                forall|j: int| 0 <= j < i ==> (#[trigger] mask@[j]) == self.data@[j],
            decreases n - i,
        {
            let v = self.data[i];
            mask.push(v);
            i = i + 1;
        }
        let body = self.data[n];
        LweCiphertext { mask, body }
    }
}

/// Decrypts a viewed ciphertext: returns exactly its phase under the key,
/// as decryption of the owned form does.
pub fn decrypt_lwe_ciphertext_view<T: TorusElement>(
    key: &LweSecretKey<T>,
    input: &LweCiphertextView<T>,
) -> (r: Plaintext<T>)
    requires
        key.wf(),
        input.wf(),
        input.dim() == key.coeffs@.len(),
    ensures
        r.0.as_int() == input.phase(*key),
{
    let owned = input.to_owned_ciphertext();
    let r = key.decrypt_lwe(&owned);
    proof {
        lemma_view_owned_phase_agree(*input, owned, *key);
    }
    r
}

/// Discarding addition of two viewed ciphertexts into a caller-owned
/// buffer: the buffer receives exactly the elements that the discarding
/// addition of the owned forms stores.
pub fn discard_add_lwe_ciphertext_view<T: TorusElement>(
    output: &mut Vec<T>,
    input_1: &LweCiphertextView<T>,
    input_2: &LweCiphertextView<T>,
)
    requires
        input_1.wf(),
        input_2.wf(),
        input_1.dim() == input_2.dim(),
        old(output)@.len() == input_1.data@.len(),
    ensures
        final(output)@.len() == old(output)@.len(),
        forall|i: int|
            0 <= i < input_1.dim() ==> (#[trigger] final(output)@[i]).as_int() == (
            input_1.mask_int(i) + input_2.mask_int(i)) % T::modulus(),
        final(output)@[input_1.dim()].as_int() == (input_1.body_int() + input_2.body_int())
            % T::modulus(),
{
    let n = input_1.data.len();
    let mut i: usize = 0;
    while i < n
        invariant
            i <= n,
            output@.len() == n,
            input_1.data@.len() == n,
            input_2.data@.len() == n,
            forall|j: int|
                0 <= j < i ==> (#[trigger] output@[j]).as_int() == (input_1.data@[j].as_int()
                    + input_2.data@[j].as_int()) % T::modulus(),
        decreases n - i,
    {
        let v = input_1.data[i].wadd(input_2.data[i]);
        output.set(i, v);
        i = i + 1;
    }
}

/// Dot products agree on any two mask sources whose first `n` elements store
/// the same integers.
proof fn lemma_dot_prefix_agree<T: TorusElement>(m1: Seq<T>, m2: Seq<T>, key: Seq<T>, n: int)
    requires
        n <= m1.len(),
        n <= m2.len(),
        forall|i: int| 0 <= i < n ==> (#[trigger] m1[i]).as_int() == m2[i].as_int(),
    ensures
        dot_key_prefix(m1, key, n) == dot_key_prefix(m2, key, n),
    decreases n,
{
    if n > 0 {
        lemma_dot_prefix_agree(m1, m2, key, n - 1);
    }
}

/// View/owned equivalence for reading: a view and an owned ciphertext that
/// store the same integers have the same phase under every key, so every
/// operation contracted over the phase — decryption above all — returns
/// identical results for the two forms.
pub proof fn lemma_view_owned_phase_agree<T: TorusElement>(
    view: LweCiphertextView<T>,
    ct: LweCiphertext<T>,
    key: LweSecretKey<T>,
)
    requires
        view.wf(),
        ct.dim() == view.dim(),
        forall|i: int| 0 <= i < view.dim() ==> #[trigger] ct.mask_int(i) == view.mask_int(i),
        ct.body_int() == view.body_int(),
    ensures
        ct.phase(key) == view.phase(key),
{
    assert forall|i: int| 0 <= i < view.dim() implies (#[trigger] ct.mask@[i]).as_int()
        == view.data@[i].as_int() by {
        assert(ct.mask_int(i) == view.mask_int(i));
    }
    lemma_dot_prefix_agree(ct.mask@, view.data@, key.coeffs@, view.dim());
}

/// View/owned equivalence for writing: a discarding addition through views
/// and a discarding addition of owned copies of the same buffers store the
/// same integers — the outputs are identical, element for element.
pub proof fn lemma_view_owned_add_agree<T: TorusElement>(
    buffer: Seq<T>,
    a: LweCiphertextView<T>,
    b: LweCiphertextView<T>,
    out: LweCiphertext<T>,
    oa: LweCiphertext<T>,
    ob: LweCiphertext<T>,
)
    requires
        a.wf(),
        b.wf(),
        a.dim() == b.dim(),
        buffer.len() == a.data@.len(),
        forall|i: int|
            0 <= i < a.dim() ==> (#[trigger] buffer[i]).as_int() == (a.mask_int(i) + b.mask_int(
                i,
            )) % T::modulus(),
        buffer[a.dim()].as_int() == (a.body_int() + b.body_int()) % T::modulus(),
        oa.dim() == a.dim(),
        forall|i: int| 0 <= i < a.dim() ==> #[trigger] oa.mask_int(i) == a.mask_int(i),
        oa.body_int() == a.body_int(),
        ob.dim() == b.dim(),
        forall|i: int| 0 <= i < b.dim() ==> #[trigger] ob.mask_int(i) == b.mask_int(i),
        ob.body_int() == b.body_int(),
        out.stores_add(oa, ob),
    ensures
        forall|i: int| 0 <= i < out.dim() ==> #[trigger] out.mask_int(i) == buffer[i].as_int(),
        out.body_int() == buffer[a.dim()].as_int(),
{
    assert forall|i: int| 0 <= i < out.dim() implies #[trigger] out.mask_int(i) == buffer[
    i].as_int() by {
        assert(out.mask_int(i) == (oa.mask_int(i) + ob.mask_int(i)) % T::modulus());
    }
}

} // verus!
