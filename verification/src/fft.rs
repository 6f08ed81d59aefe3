//! The state of the transform-based convolver: the padded length that its
//! plans are made for, and the cached spectrum of the kernel with its
//! conjugate.
//!
//! The transforms themselves are run by the caller. The convolver says which
//! length they have, hands out their zero-padded input, and keeps the kernel
//! spectrum that a forward transform of the padded kernel gave. A forward
//! convolution multiplies by the spectrum, an adjoint one by its conjugate.
use crate::binary32;
use crate::layout;
use vstd::prelude::*;

verus! {

/// One bin of a spectrum: real and imaginary part, binary32 patterns.
#[derive(Clone, Copy, Debug, PartialEq, Eq, Structural)]
pub struct SpectrumBin {
    pub re: u32,
    pub im: u32,
}

impl SpectrumBin {
    /// The complex conjugate: the imaginary part changes its sign.
    pub open spec fn spec_conj(self) -> SpectrumBin {
        SpectrumBin { re: self.re, im: binary32::spec_negate(self.im) }
    }

    /// The complex conjugate.
    #[verifier::when_used_as_spec(spec_conj)]
    pub fn conj(self) -> (r: SpectrumBin)
        ensures
            r == self.spec_conj(),
    {
        SpectrumBin { re: self.re, im: binary32::negate(self.im) }
    }
}

/// The conjugate of each bin.
pub open spec fn conjugated(spectrum: Seq<SpectrumBin>) -> Seq<SpectrumBin> {
    Seq::new(spectrum.len(), |i: int| spectrum[i].spec_conj())
}

/// The first `signal_len` samples of `source`, followed by zeros up to `len`
/// samples in all.
pub open spec fn zero_padded(source: Seq<u32>, signal_len: nat, len: nat) -> Seq<u32> {
    Seq::new(
        len,
        |i: int|
            if i < signal_len {
                source[i]
            } else {
                binary32::ZERO
            },
    )
}

/// Conjugating twice gives the spectrum back.
pub proof fn lemma_conjugated_involution(spectrum: Seq<SpectrumBin>)
    ensures
        conjugated(spectrum).len() == spectrum.len(),
        conjugated(conjugated(spectrum)) == spectrum,
{
    assert forall|i: int| 0 <= i < spectrum.len() implies conjugated(conjugated(spectrum))[i]
        == spectrum[i] by {
        binary32::lemma_negate_involution(spectrum[i].im);
    }
    assert(conjugated(conjugated(spectrum)) =~= spectrum);
}

/// The state of the convolver.
pub struct FftConvolver {
    fft_len: usize,
    prepared: bool,
    kernel_fft: Vec<SpectrumBin>,
    kernel_conj_fft: Vec<SpectrumBin>,
}

/// What the convolver stands for.
pub struct FftConvolverView {
    /// The padded transform length; 0 while no plan is made.
    pub fft_len: nat,
    /// Whether the kernel spectrum belongs to the current kernel and length.
    pub prepared: bool,
    /// The kernel spectrum where it is prepared, and nothing where it is not.
    pub kernel_spectrum: Seq<SpectrumBin>,
    /// The number of bins that the spectrum buffers have room for.
    pub capacity: nat,
}

impl FftConvolverView {
    /// Whether a signal of `signal_len` samples and a kernel of `kernel_len`
    /// need another transform length than the current one.
    pub open spec fn needs_rebuild(self, signal_len: nat, kernel_len: nat) -> bool {
        signal_len > 0 && kernel_len > 0 && layout::padded_len(signal_len, kernel_len)
            != self.fft_len
    }

    /// The state after the buffers were made ready for a signal and a kernel.
    pub open spec fn ensure_buffers(self, signal_len: nat, kernel_len: nat) -> FftConvolverView {
        if self.needs_rebuild(signal_len, kernel_len) {
            let padded = layout::padded_len(signal_len, kernel_len);
            let bins = layout::spectrum_len(padded);
            FftConvolverView {
                fft_len: padded,
                prepared: false,
                kernel_spectrum: Seq::empty(),
                capacity: if self.capacity < bins {
                    bins
                } else {
                    self.capacity
                },
            }
        } else {
            self
        }
    }

    /// The state after the plans were dropped.
    pub open spec fn invalidate(self) -> FftConvolverView {
        FftConvolverView { fft_len: 0, prepared: false, kernel_spectrum: Seq::empty(), ..self }
    }

    /// The state after the kernel changed under an unchanged length.
    pub open spec fn kernel_changed(self) -> FftConvolverView {
        FftConvolverView { prepared: false, kernel_spectrum: Seq::empty(), ..self }
    }

    /// The state after the spectrum of the current kernel was handed in.
    pub open spec fn prepare_kernel(self, spectrum: Seq<SpectrumBin>) -> FftConvolverView {
        FftConvolverView { prepared: true, kernel_spectrum: spectrum, ..self }
    }

    /// What holds of every convolver: a plan length is a power of two, the
    /// buffers have room for its spectrum, and a prepared spectrum has one bin
    /// for each bin of the transform.
    pub open spec fn wf(self) -> bool {
        &&& self.fft_len > 0 ==> layout::is_power_of_two(self.fft_len)
        &&& self.fft_len > 0 ==> layout::spectrum_len(self.fft_len) <= self.capacity
        &&& self.prepared ==> self.fft_len > 0
        &&& self.prepared ==> self.kernel_spectrum.len() == layout::spectrum_len(self.fft_len)
        &&& !self.prepared ==> self.kernel_spectrum.len() == 0
    }
}

impl View for FftConvolver {
    type V = FftConvolverView;

    closed spec fn view(&self) -> FftConvolverView {
        FftConvolverView {
            fft_len: self.fft_len as nat,
            prepared: self.prepared,
            kernel_spectrum: if self.prepared {
                self.kernel_fft@.subrange(0, layout::spectrum_len(self.fft_len as nat) as int)
            } else {
                Seq::empty()
            },
            capacity: self.kernel_fft@.len(),
        }
    }
}

/// Lengthens a spectrum buffer to `len` bins. A buffer that is long enough is
/// left as it is.
fn grow_bins(buf: &mut Vec<SpectrumBin>, len: usize)
    ensures
        final(buf).len() == if old(buf).len() < len {
            len
        } else {
            old(buf).len()
        },
        forall|i: int| 0 <= i < old(buf).len() ==> final(buf)[i] == old(buf)[i],
{
    while buf.len() < len
        invariant
            old(buf).len() <= buf.len(),
            buf.len() <= len || buf.len() == old(buf).len(),
            forall|i: int| 0 <= i < old(buf).len() ==> buf[i] == old(buf)[i],
        decreases len - buf.len(),
    {
        buf.push(SpectrumBin { re: binary32::ZERO, im: binary32::ZERO });
    }
}

impl FftConvolver {
    /// The representation invariant: the view is well formed, both spectrum
    /// buffers have the same length, and the conjugate buffer holds the
    /// conjugate of each prepared bin.
    pub closed spec fn wf(&self) -> bool {
        &&& self@.wf()
        &&& self.kernel_fft.len() == self.kernel_conj_fft.len()
        &&& self.prepared ==> forall|i: int|
            0 <= i < layout::spectrum_len(self.fft_len as nat) ==> self.kernel_conj_fft[i]
                == self.kernel_fft[i].spec_conj()
    }

    /// What `wf` says of the view.
    pub proof fn lemma_wf_view(&self)
        requires
            self.wf(),
        ensures
            self@.wf(),
    {
    }

    /// A convolver without plans and buffers.
    pub fn new() -> (r: FftConvolver)
        ensures
            r.wf(),
            r@ == (FftConvolverView {
                fft_len: 0,
                prepared: false,
                kernel_spectrum: Seq::empty(),
                capacity: 0,
            }),
    {
        FftConvolver {
            fft_len: 0,
            prepared: false,
            kernel_fft: Vec::new(),
            kernel_conj_fft: Vec::new(),
        }
    }

    /// The padded transform length; 0 while no plan is made.
    pub fn fft_len(&self) -> (r: usize)
        ensures
            r == self@.fft_len,
    {
        self.fft_len
    }

    /// Whether the kernel spectrum belongs to the current kernel and length.
    pub fn is_prepared(&self) -> (r: bool)
        ensures
            r == self@.prepared,
    {
        self.prepared
    }

    /// Whether a transform is planned whose kernel spectrum is still to be
    /// prepared.
    pub fn awaits_kernel(&self) -> (r: bool)
        ensures
            r == (self@.fft_len > 0 && !self@.prepared),
    {
        self.fft_len > 0 && !self.prepared
    }

    /// Drops the plans: the next `ensure_buffers` for a signal and a kernel
    /// rebuilds, whatever their lengths.
    pub fn invalidate(&mut self)
        requires
            old(self).wf(),
        ensures
            final(self).wf(),
            final(self)@ == old(self)@.invalidate(),
    {
        self.fft_len = 0;
        self.prepared = false;
    }

    /// Marks the kernel spectrum as outdated: the kernel changed, the length
    /// did not.
    pub fn kernel_changed(&mut self)
        requires
            old(self).wf(),
        ensures
            final(self).wf(),
            final(self)@ == old(self)@.kernel_changed(),
    {
        self.prepared = false;
    }

    /// Makes the buffers ready for a signal of `signal_len` samples and a
    /// kernel of `kernel_len` samples. Where the padded length is the current
    /// one, or one of the two is empty, nothing changes. Otherwise the length
    /// is set, the buffers grow to it, and the kernel spectrum waits to be
    /// prepared. Returns whether the length changed.
    pub fn ensure_buffers(&mut self, signal_len: usize, kernel_len: usize) -> (rebuilt: bool)
        requires
            old(self).wf(),
            signal_len > 0 && kernel_len > 0 ==> layout::padded_len(
                signal_len as nat,
                kernel_len as nat,
            ) <= usize::MAX,
        ensures
            final(self).wf(),
            rebuilt == old(self)@.needs_rebuild(signal_len as nat, kernel_len as nat),
            final(self)@ == old(self)@.ensure_buffers(signal_len as nat, kernel_len as nat),
    {
        if signal_len == 0 || kernel_len == 0 {
            return false;
        }
        let padded = match layout::checked_padded_len(signal_len, kernel_len) {
            Some(p) => p,
            None => {
                return false;
            },
        };
        if padded == self.fft_len {
            return false;
        }
        proof {
            layout::lemma_padded_len_holds_convolution(signal_len as nat, kernel_len as nat);
        }
        self.fft_len = padded;
        self.prepared = false;
        let bins = layout::spectrum_bins(padded);
        grow_bins(&mut self.kernel_fft, bins);
        grow_bins(&mut self.kernel_conj_fft, bins);
        true
    }

    /// The input of a forward transform: the first `signal_len` samples of
    /// `source`, zero-padded to the transform length.
    pub fn padded_input(&self, source: &[u32], signal_len: usize) -> (input: Vec<u32>)
        requires
            signal_len <= source.len(),
        ensures
            input@ == zero_padded(source@, signal_len as nat, self@.fft_len),
    {
        let mut input: Vec<u32> = Vec::new();
        let mut i: usize = 0;
        while i < self.fft_len
            invariant
                i <= self.fft_len,
                signal_len <= source.len(),
                input.len() == i,
                forall|j: int|
                    0 <= j < i ==> input[j] == if j < signal_len {
                        source[j]
                    } else {
                        binary32::ZERO
                    },
            decreases self.fft_len - i,
        {
            if i < signal_len {
                input.push(source[i]);
            } else {
                input.push(binary32::ZERO);
            }
            i = i + 1;
        }
        assert(input@ =~= zero_padded(source@, signal_len as nat, self@.fft_len));
        input
    }

    /// Takes the spectrum of the zero-padded kernel, as a forward transform of
    /// the current length gave it, and derives its conjugate.
    pub fn prepare_kernel(&mut self, spectrum: &[SpectrumBin])
        requires
            old(self).wf(),
            old(self)@.fft_len > 0,
            spectrum.len() == layout::spectrum_len(old(self)@.fft_len),
        ensures
            final(self).wf(),
            final(self)@ == old(self)@.prepare_kernel(spectrum@),
    {
        let bins = spectrum.len();
        let mut i: usize = 0;
        while i < bins
            invariant
                i <= bins,
                bins == spectrum.len(),
                bins <= self.kernel_fft.len(),
                self.kernel_fft.len() == self.kernel_conj_fft.len(),
                self.kernel_fft.len() == old(self).kernel_fft.len(),
                self.fft_len == old(self).fft_len,
                forall|j: int| 0 <= j < i ==> self.kernel_fft[j] == spectrum[j],
                forall|j: int| 0 <= j < i ==> self.kernel_conj_fft[j] == spectrum[j].spec_conj(),
            decreases bins - i,
        {
            let bin = spectrum[i];
            self.kernel_fft[i] = bin;
            self.kernel_conj_fft[i] = bin.conj();
            i = i + 1;
        }
        self.prepared = true;
        assert(self@.kernel_spectrum =~= spectrum@);
    }

    /// The spectrum of the kernel, for forward convolution. Empty while the
    /// spectrum is not prepared.
    pub fn kernel_spectrum(&self) -> (r: Vec<SpectrumBin>)
        requires
            self.wf(),
        ensures
            r@ == self@.kernel_spectrum,
    {
        let mut out: Vec<SpectrumBin> = Vec::new();
        if !self.prepared {
            return out;
        }
        let bins = layout::spectrum_bins(self.fft_len);
        let mut i: usize = 0;
        while i < bins
            invariant
                i <= bins <= self.kernel_fft.len(),
                out.len() == i,
                forall|j: int| 0 <= j < i ==> out[j] == self.kernel_fft[j],
            decreases bins - i,
        {
            out.push(self.kernel_fft[i]);
            i = i + 1;
        }
        assert(out@ =~= self@.kernel_spectrum);
        out
    }

    /// The conjugate of the kernel spectrum, for adjoint convolution. Empty
    /// while the spectrum is not prepared.
    pub fn kernel_conj_spectrum(&self) -> (r: Vec<SpectrumBin>)
        requires
            self.wf(),
        ensures
            r@ == conjugated(self@.kernel_spectrum),
    {
        let mut out: Vec<SpectrumBin> = Vec::new();
        if !self.prepared {
            assert(out@ =~= conjugated(self@.kernel_spectrum));
            return out;
        }
        let bins = layout::spectrum_bins(self.fft_len);
        let mut i: usize = 0;
        while i < bins
            invariant
                i <= bins <= self.kernel_conj_fft.len(),
                out.len() == i,
                forall|j: int| 0 <= j < i ==> out[j] == self.kernel_conj_fft[j],
            decreases bins - i,
        {
            out.push(self.kernel_conj_fft[i]);
            i = i + 1;
        }
        assert(out@ =~= conjugated(self@.kernel_spectrum));
        out
    }
}

} // verus!
