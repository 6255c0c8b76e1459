use std::io::Write;
use vstd::prelude::*;

verus! {

/// Compression algorithms for which side-car files are produced.
#[derive(Clone, Copy, Debug, PartialEq, Eq, Hash, Structural)]
pub enum Algorithm {
    Gzip,
    Brotli,
}

/// What the gzip encoder at its best level produces for the given bytes.
pub uninterp spec fn gzip_best(data: Seq<u8>) -> Seq<u8>;

/// What the brotli encoder with its default parameters produces for the given bytes.
pub uninterp spec fn brotli_default(data: Seq<u8>) -> Seq<u8>;

/// Relies on flate2's `GzEncoder` at `Compression::best()`, writing into
/// memory, where neither the write nor `finish` can fail.
#[verifier::external_body]
fn gzip_encode(data: &Vec<u8>) -> (r: Option<Vec<u8>>)
    ensures
        r is Some,
        r matches Some(out) ==> out@ == gzip_best(data@),
{
    let mut encoder = flate2::write::GzEncoder::new(Vec::new(), flate2::Compression::best());
    match encoder.write_all(data) {
        Ok(()) => encoder.finish().ok(),
        Err(_) => None,
    }
}

/// Relies on `brotli::BrotliCompress` with `BrotliEncoderParams::default()`,
/// reading from and writing into memory, where neither side can fail.
#[verifier::external_body]
fn brotli_encode(data: &Vec<u8>) -> (r: Option<Vec<u8>>)
    ensures
        r is Some,
        r matches Some(out) ==> out@ == brotli_default(data@),
{
    let params = brotli::enc::BrotliEncoderParams::default();
    let mut input: &[u8] = data.as_slice();
    let mut out: Vec<u8> = Vec::new();
    match brotli::BrotliCompress(&mut input, &mut out, &params) {
        Ok(_) => Some(out),
        Err(_) => None,
    }
}

impl Algorithm {
    /// The content-encoding token of the algorithm.
    pub open spec fn spec_name(self) -> Seq<char> {
        match self {
            Algorithm::Gzip => seq!['g', 'z', 'i', 'p'],
            Algorithm::Brotli => seq!['b', 'r'],
        }
    }

    /// The file suffix appended to a side-car produced by the algorithm.
    pub open spec fn spec_extension(self) -> Seq<char> {
        match self {
            Algorithm::Gzip => seq!['g', 'z'],
            Algorithm::Brotli => seq!['b', 'r'],
        }
    }

    /// The encoded form of `data` under this algorithm.
    pub open spec fn encoded(self, data: Seq<u8>) -> Seq<u8> {
        match self {
            Algorithm::Gzip => gzip_best(data),
            Algorithm::Brotli => brotli_default(data),
        }
    }

    pub fn name(self) -> (r: &'static str)
        ensures
            r@ == self.spec_name(),
    {
        match self {
            Algorithm::Gzip => {
                proof {
                    reveal_strlit("gzip");
                }
                "gzip"
            },
            Algorithm::Brotli => {
                proof {
                    reveal_strlit("br");
                }
                "br"
            },
        }
    }

    pub fn extension(self) -> (r: &'static str)
        ensures
            r@ == self.spec_extension(),
    {
        match self {
            Algorithm::Gzip => {
                proof {
                    reveal_strlit("gz");
                }
                "gz"
            },
            Algorithm::Brotli => {
                proof {
                    reveal_strlit("br");
                }
                "br"
            },
        }
    }

    /// Encodes `data`.
    pub fn encode(self, data: &Vec<u8>) -> (r: Option<Vec<u8>>)
        ensures
            r is Some,
            r matches Some(out) ==> out@ == self.encoded(data@),
    {
        match self {
            Algorithm::Gzip => gzip_encode(data),
            Algorithm::Brotli => brotli_encode(data),
        }
    }
}

/// ASCII case folding of one character, as a code point.
pub open spec fn fold_ascii(c: char) -> u32 {
    let n = c as u32;
    if 65 <= n && n <= 90 {
        (n + 32) as u32
    } else {
        n
    }
}

/// Two texts are equal up to ASCII case.
pub open spec fn same_ignoring_ascii_case(a: Seq<char>, b: Seq<char>) -> bool {
    &&& a.len() == b.len()
    &&& forall|i: int| 0 <= i < a.len() ==> fold_ascii(#[trigger] a[i]) == fold_ascii(b[i])
}

fn fold_ascii_char(c: char) -> (r: u32)
    ensures
        r == fold_ascii(c),
{
    let n = c as u32;
    if 65 <= n && n <= 90 {
        n + 32
    } else {
        n
    }
}

/// Compares two texts ignoring the case of ASCII letters.
pub fn eq_ignore_ascii_case(a: &str, b: &str) -> (r: bool)
    ensures
        r == same_ignoring_ascii_case(a@, b@),
{
    let n = a.unicode_len();
    let m = b.unicode_len();
    if n != m {
        return false;
    }
    let mut i: usize = 0;
    while i < n
        invariant
            n == a@.len(),
            m == b@.len(),
            n == m,
            i <= n,
            forall|j: int| 0 <= j < i ==> fold_ascii(#[trigger] a@[j]) == fold_ascii(b@[j]),
        decreases n - i,
    {
        if fold_ascii_char(a.get_char(i)) != fold_ascii_char(b.get_char(i)) {
            return false;
        }
        i += 1;
    }
    true
}

/// The extension matches one of the listed ones, ignoring ASCII case.
pub open spec fn listed_extension(ext: Seq<char>, filter: Seq<String>) -> bool {
    exists|i: int| 0 <= i < filter.len() && same_ignoring_ascii_case(ext, #[trigger] filter[i]@)
}

/// A present extension that is listed.
pub open spec fn listed_opt(extension: Option<&str>, filter: Seq<String>) -> bool {
    match extension {
        Some(e) => listed_extension(e@, filter),
        None => false,
    }
}

/// Tells whether a file extension is one of `extensions`, ignoring ASCII case.
pub fn match_extension(extension: Option<&str>, extensions: &Vec<String>) -> (r: bool)
    ensures
        r == listed_opt(extension, extensions@),
{
    match extension {
        None => false,
        Some(e) => {
            let mut i: usize = 0;
            while i < extensions.len()
                invariant
                    extension == Some(e),
                    i <= extensions@.len(),
                    forall|j: int|
                        0 <= j < i ==> !same_ignoring_ascii_case(e@, #[trigger] extensions@[j]@),
                decreases extensions@.len() - i,
            {
                if eq_ignore_ascii_case(e, extensions[i].as_str()) {
                    assert(same_ignoring_ascii_case(e@, extensions@[i as int]@));
                    assert(listed_extension(e@, extensions@));
                    return true;
                }
                i += 1;
            }
            false
        },
    }
}

/// Aggregate sizes of one compression pass.
#[derive(Debug, Clone)]
pub struct Statistics {
    /// Total bytes of all files combined
    pub size: u64,
    /// Number of bytes of compressible files only
    pub compressible: u64,
    /// Size of compressed files by algorithm, one entry per configured algorithm
    pub compressed: Vec<(Algorithm, u64)>,
}

impl Statistics {
    /// No algorithm's output exceeds the compressible total, which in turn
    /// does not exceed the total size; so a zero compressible total forces
    /// every algorithm's total to zero.
    pub open spec fn bounded(&self) -> bool {
        &&& self.compressible <= self.size
        &&& forall|i: int|
            0 <= i < self.compressed@.len() ==> (#[trigger] self.compressed@[i]).1
                <= self.compressible
    }

    /// The recorded total for `algorithm`, if it is tracked.
    pub fn compressed_size(&self, algorithm: Algorithm) -> (r: Option<u64>)
        ensures
            r matches Some(n) ==> exists|i: int|
                0 <= i < self.compressed@.len() && #[trigger] self.compressed@[i] == (
                algorithm,
                n,
            ),
            r is None ==> forall|i: int|
                0 <= i < self.compressed@.len() ==> (#[trigger] self.compressed@[i]).0
                    != algorithm,
    {
        let mut i: usize = 0;
        while i < self.compressed.len()
            invariant
                i <= self.compressed@.len(),
                forall|j: int| 0 <= j < i ==> (#[trigger] self.compressed@[j]).0 != algorithm,
            decreases self.compressed@.len() - i,
        {
            if self.compressed[i].0 == algorithm {
                return Some(self.compressed[i].1);
            }
            i += 1;
        }
        None
    }
}

/// A compressed copy of a file, to be written beside it.
#[derive(Debug, Clone)]
pub struct SideCar {
    pub path: String,
    pub data: Vec<u8>,
}

/// The path of the side-car that `algorithm` produces for the file at `path`.
pub open spec fn side_car_path(path: Seq<char>, algorithm: Algorithm) -> Seq<char> {
    path + seq!['.'] + algorithm.spec_extension()
}

/// Smallest file, in bytes, that is worth compressing.
pub const DEFAULT_MIN_SIZE: u64 = 1400;

pub struct Compressor {
    algorithms: Vec<Algorithm>,
    min_size: u64,
}

impl Compressor {
    pub closed spec fn spec_algorithms(&self) -> Seq<Algorithm> {
        self.algorithms@
    }

    pub closed spec fn spec_min_size(&self) -> u64 {
        self.min_size
    }

    /// Side-car preference order: best ratio first.
    pub fn algorithms(&self) -> (r: Vec<Algorithm>)
        ensures
            r@ == self.spec_algorithms(),
    {
        let mut r: Vec<Algorithm> = Vec::new();
        let mut i: usize = 0;
        while i < self.algorithms.len()
            invariant
                i <= self.algorithms@.len(),
                r@ == self.algorithms@.subrange(0, i as int),
            decreases self.algorithms@.len() - i,
        {
            r.push(self.algorithms[i]);
            i += 1;
            proof {
                assert(r@ =~= self.algorithms@.subrange(0, i as int));
            }
        }
        proof {
            assert(r@ =~= self.algorithms@);
        }
        r
    }

    /// A file is compressed when it is a regular file of at least the
    /// minimum size whose extension is listed.
    pub open spec fn eligible(
        &self,
        size: u64,
        is_file: bool,
        extension: Option<&str>,
        filter: Seq<String>,
    ) -> bool {
        &&& is_file
        &&& size >= self.spec_min_size()
        &&& listed_opt(extension, filter)
    }

    pub fn is_eligible(
        &self,
        size: u64,
        is_file: bool,
        extension: Option<&str>,
        filter: &Vec<String>,
    ) -> (r: bool)
        ensures
            r == self.eligible(size, is_file, extension, filter@),
    {
        is_file && size >= self.min_size && match_extension(extension, filter)
    }

    /// The statistics keep one entry per algorithm of this compressor, in order.
    pub open spec fn tracks(&self, stats: &Statistics) -> bool {
        &&& stats.compressed@.len() == self.spec_algorithms().len()
        &&& forall|i: int|
            0 <= i < stats.compressed@.len() ==> (#[trigger] stats.compressed@[i]).0
                == self.spec_algorithms()[i]
    }

    /// Statistics of a pass that has seen no file yet.
    pub fn new_statistics(&self) -> (r: Statistics)
        ensures
            self.tracks(&r),
            r.size == 0,
            r.compressible == 0,
            forall|i: int| 0 <= i < r.compressed@.len() ==> (#[trigger] r.compressed@[i]).1 == 0,
            r.bounded(),
    {
        let mut compressed: Vec<(Algorithm, u64)> = Vec::new();
        let mut i: usize = 0;
        while i < self.algorithms.len()
            invariant
                i <= self.algorithms@.len(),
                compressed@.len() == i,
                forall|j: int|
                    0 <= j < i ==> #[trigger] compressed@[j] == (self.algorithms@[j], 0u64),
            decreases self.algorithms@.len() - i,
        {
            compressed.push((self.algorithms[i], 0));
            i += 1;
        }
        Statistics { size: 0, compressible: 0, compressed }
    }

    /// Accounts for one entry of the walked directory. Every regular file
    /// adds its size to the total; an eligible one also adds it to the
    /// compressible total and is encoded with every algorithm, each output
    /// adding its length to that algorithm's total and being returned as a
    /// side-car.
    pub fn add_file(
        &self,
        stats: &mut Statistics,
        path: &str,
        size: u64,
        is_file: bool,
        extension: Option<&str>,
        filter: &Vec<String>,
        contents: &Vec<u8>,
    ) -> (r: Result<Vec<SideCar>, ()>)
        requires
            self.tracks(old(stats)),
            self.eligible(size, is_file, extension, filter@) ==> contents@.len() == size,
        ensures
            self.tracks(final(stats)),
            final(stats).size == if is_file {
                old(stats).size.saturating_add(size)
            } else {
                old(stats).size
            },
            final(stats).compressible == if self.eligible(size, is_file, extension, filter@) {
                old(stats).compressible.saturating_add(size)
            } else {
                old(stats).compressible
            },
            r is Ok,
            r matches Ok(cars) ==> {
                if self.eligible(size, is_file, extension, filter@) {
                    &&& cars@.len() == self.spec_algorithms().len()
                    &&& forall|i: int|
                        0 <= i < cars@.len() ==> {
                            let a = self.spec_algorithms()[i];
                            &&& (#[trigger] cars@[i]).path@ == side_car_path(path@, a)
                            &&& cars@[i].data@ == a.encoded(contents@)
                            &&& final(stats).compressed@[i].1 == old(
                                stats,
                            ).compressed@[i].1.saturating_add(a.encoded(contents@).len() as u64)
                        }
                } else {
                    &&& cars@.len() == 0
                    &&& final(stats).compressed@ == old(stats).compressed@
                }
            },
            old(stats).bounded() && (forall|i: int|
                0 <= i < self.spec_algorithms().len() ==> (#[trigger] self.spec_algorithms()[i]).encoded(
                    contents@,
                ).len() <= contents@.len()) ==> final(stats).bounded(),
    {
        if is_file {
            stats.size = stats.size.saturating_add(size);
        }
        let mut cars: Vec<SideCar> = Vec::new();
        if !self.is_eligible(size, is_file, extension, filter) {
            return Ok(cars);
        }
        stats.compressible = stats.compressible.saturating_add(size);
        let ghost mid = stats.compressed@;
        let mut i: usize = 0;
        while i < self.algorithms.len()
            invariant
                i <= self.algorithms@.len(),
                is_file,
                self.eligible(size, is_file, extension, filter@),
                self.tracks(stats),
                stats.size == old(stats).size.saturating_add(size),
                stats.compressible == old(stats).compressible.saturating_add(size),
                contents@.len() == size,
                mid == old(stats).compressed@,
                cars@.len() == i,
                forall|j: int|
                    0 <= j < i ==> {
                        let a = self.algorithms@[j];
                        &&& (#[trigger] cars@[j]).path@ == side_car_path(path@, a)
                        &&& cars@[j].data@ == a.encoded(contents@)
                        &&& stats.compressed@[j].1 == mid[j].1.saturating_add(
                            a.encoded(contents@).len() as u64,
                        )
                    },
                forall|j: int| i <= j < stats.compressed@.len() ==> #[trigger] stats.compressed@[j] == mid[j],
            decreases self.algorithms@.len() - i,
        {
            let algorithm = self.algorithms[i];
            let data = match algorithm.encode(contents) {
                Some(d) => d,
                None => return Err(()),
            };
            let n = data.len() as u64;
            let total = stats.compressed[i].1.saturating_add(n);
            stats.compressed.set(i, (algorithm, total));
            let car_path = String::from_str(path).concat(".").concat(algorithm.extension());
            proof {
                reveal_strlit(".");
            }
            cars.push(SideCar { path: car_path, data });
            i += 1;
        }
        proof {
            if old(stats).bounded() && (forall|j: int|
                0 <= j < self.spec_algorithms().len() ==> (#[trigger] self.spec_algorithms()[j]).encoded(
                    contents@,
                ).len() <= contents@.len()) {
                assert forall|j: int| 0 <= j < stats.compressed@.len() implies (
                #[trigger] stats.compressed@[j]).1 <= stats.compressible by {
                    let c = cars@[j];
                    assert(self.algorithms@[j].encoded(contents@).len() <= contents@.len());
                    assert(old(stats).compressed@[j].1 <= old(stats).compressible);
                }
            }
        }
        Ok(cars)
    }
}

impl Default for Compressor {
    /// Brotli first, then gzip, and the default minimum size.
    fn default() -> (r: Self)
        ensures
            r.spec_algorithms() == seq![Algorithm::Brotli, Algorithm::Gzip],
            r.spec_min_size() == DEFAULT_MIN_SIZE,
    {
        Compressor { algorithms: vec![Algorithm::Brotli, Algorithm::Gzip], min_size: DEFAULT_MIN_SIZE }
    }
}

} // verus!
