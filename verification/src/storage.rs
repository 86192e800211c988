//! The registry of storage volumes and of the mappers that build logical
//! volumes on them, and the printing of sizes.
use vstd::prelude::*;

verus! {

/// A physical volume, as its driver presents it.
pub trait PhysicalVolume: Sized {
    /// The name of the volume: what `name` reports.
    spec fn name_of(&self) -> Seq<char>;

    /// The name of the volume, unique in the system.
    fn name(&self) -> (name: String)
        ensures
            name@ == self.name_of(),
    ;

    /// The size of a block in bytes.
    fn blocksize(&self) -> usize;

    /// The number of blocks.
    fn capacity(&self) -> u64;
}

/// A handler of physical volumes: it says how well it handles a volume, and
/// the best handler of a volume gets it.
pub trait Mapper<P: PhysicalVolume>: Sized {
    /// How well the mapper handles `pv`: what `handles_pv` reports. Zero
    /// says not at all.
    spec fn level(&self, pv: &P) -> usize;

    /// The name of the mapper.
    fn name(&self) -> String;

    /// How well the mapper handles `pv`; zero for not at all.
    fn handles_pv(&self, pv: &P) -> (level: usize)
        ensures
            level == self.level(pv),
    ;
}

/// A handle of a logical volume.
pub struct VolumeHandle {
    lv_idx: usize,
}

/// The registration of a physical volume.
pub struct PhysicalVolumeReg {
    idx: usize,
}

/// A registered physical volume with its number.
pub struct RegisteredVolume<P> {
    pub id: usize,
    pub volume: P,
}

/// The registry.
pub struct Storage<P, M> {
    pub next_pv_idx: usize,
    pub physical_volumes: Vec<RegisteredVolume<P>>,
    pub mappers: Vec<M>,
}

/// A size in bytes that prints as a short number with a binary unit.
pub struct SizePrinter(pub u64);

impl PhysicalVolumeReg {
    /// The number of the registered volume.
    pub closed spec fn idx(&self) -> usize {
        self.idx
    }

    /// The number of the registered volume.
    pub fn index(&self) -> (idx: usize)
        ensures
            idx == self.idx(),
    {
        self.idx
    }
}

/// Asks every mapper how well it handles `pv` and picks the best: a higher
/// level wins, and of two mappers of one level the one registered first.
pub fn best_mapper<P: PhysicalVolume, M: Mapper<P>>(mappers: &Vec<M>, pv: &P) -> (best: Option<
    usize,
>)
    ensures
        best is Some <==> exists|i: int|
            0 <= i < mappers@.len() && (#[trigger] mappers@[i]).level(pv) > 0,
        best matches Some(b) ==> {
            &&& b < mappers@.len()
            &&& mappers@[b as int].level(pv) > 0
            &&& forall|j: int|
                0 <= j < mappers@.len() ==> (#[trigger] mappers@[j]).level(pv) <= mappers@[b as int].level(
                    pv,
                )
            &&& forall|j: int|
                0 <= j < b ==> (#[trigger] mappers@[j]).level(pv) < mappers@[b as int].level(pv)
        },
{
    let mut best_mapper: Option<usize> = None;
    let mut best_mapper_level: usize = 0;
    let mut i: usize = 0;
    while i < mappers.len()
        invariant
            i <= mappers@.len(),
            best_mapper is None <==> best_mapper_level == 0,
            best_mapper is None ==> forall|j: int|
                0 <= j < i ==> (#[trigger] mappers@[j]).level(pv) == 0,
            best_mapper matches Some(b) ==> {
                &&& b < i
                &&& mappers@[b as int].level(pv) == best_mapper_level
                &&& forall|j: int|
                    0 <= j < i ==> (#[trigger] mappers@[j]).level(pv) <= best_mapper_level
                &&& forall|j: int|
                    0 <= j < b ==> (#[trigger] mappers@[j]).level(pv) < best_mapper_level
            },
        decreases mappers@.len() - i,
    {
        let level = mappers[i].handles_pv(pv);
        if level == 0 {
        } else if level < best_mapper_level {
        } else if level == best_mapper_level {
        } else {
            best_mapper = Some(i);
            best_mapper_level = level;
        }
        i = i + 1;
    }
    best_mapper
}

impl<P: PhysicalVolume, M: Mapper<P>> Storage<P, M> {
    /// No volume number is in use twice, and none is the next to be given.
    pub open spec fn wf(&self) -> bool {
        &&& forall|i: int|
            0 <= i < self.physical_volumes@.len() ==> (#[trigger] self.physical_volumes@[i]).id
                < self.next_pv_idx
        &&& forall|i: int, j: int|
            0 <= i < j < self.physical_volumes@.len() ==> (#[trigger] self.physical_volumes@[i]).id
                != (#[trigger] self.physical_volumes@[j]).id
    }

    /// A registry without volumes and mappers.
    pub fn new() -> (storage: Self)
        ensures
            storage.wf(),
            storage.next_pv_idx == 0,
            storage.physical_volumes@.len() == 0,
            storage.mappers@.len() == 0,
    {
        Storage { next_pv_idx: 0, physical_volumes: Vec::new(), mappers: Vec::new() }
    }
}

/// Registers a physical volume under the next number. No mapper may handle
/// the volume: handing a volume to a mapper is not supported.
pub fn register_pv<P: PhysicalVolume, M: Mapper<P>>(storage: &mut Storage<P, M>, pv: P) -> (reg:
    PhysicalVolumeReg)
    requires
        old(storage).wf(),
        old(storage).next_pv_idx < usize::MAX,
        forall|i: int|
            0 <= i < old(storage).mappers@.len() ==> (#[trigger] old(storage).mappers@[i]).level(
                &pv,
            ) == 0,
    ensures
        final(storage).wf(),
        reg.idx() == old(storage).next_pv_idx,
        final(storage).next_pv_idx == old(storage).next_pv_idx + 1,
        final(storage).mappers == old(storage).mappers,
        final(storage).physical_volumes@ == old(storage).physical_volumes@.push(
            RegisteredVolume { id: reg.idx(), volume: pv },
        ),
{
    let pv_id = storage.next_pv_idx;
    storage.next_pv_idx = pv_id + 1;
    let best = best_mapper(&storage.mappers, &pv);
    assert(best is None);
    storage.physical_volumes.push(RegisteredVolume { id: pv_id, volume: pv });
    PhysicalVolumeReg { idx: pv_id }
}

/// The numbers of the volumes among `volumes` that `mapper` handles at
/// all, in their order.
pub open spec fn wanted_by<P: PhysicalVolume, M: Mapper<P>>(
    volumes: Seq<RegisteredVolume<P>>,
    mapper: M,
) -> Seq<usize>
    decreases volumes.len(),
{
    if volumes.len() == 0 {
        Seq::empty()
    } else if mapper.level(&volumes.last().volume) != 0 {
        wanted_by(volumes.drop_last(), mapper).push(volumes.last().id)
    } else {
        wanted_by(volumes.drop_last(), mapper)
    }
}

/// Registers a mapper, and asks it about every registered volume. Returns
/// the numbers of the volumes that the mapper wants to handle, in the order
/// of their registration.
pub fn register_mapper<P: PhysicalVolume, M: Mapper<P>>(
    storage: &mut Storage<P, M>,
    mapper: M,
) -> (wanted: Vec<usize>)
    ensures
        final(storage).next_pv_idx == old(storage).next_pv_idx,
        final(storage).physical_volumes == old(storage).physical_volumes,
        final(storage).mappers@ == old(storage).mappers@.push(mapper),
        wanted@ == wanted_by(old(storage).physical_volumes@, mapper),
{
    storage.mappers.push(mapper);
    let mut wanted: Vec<usize> = Vec::new();
    let last = storage.mappers.len() - 1;
    let mut i: usize = 0;
    while i < storage.physical_volumes.len()
        invariant
            i <= storage.physical_volumes@.len(),
            storage.physical_volumes == old(storage).physical_volumes,
            storage.next_pv_idx == old(storage).next_pv_idx,
            storage.mappers@ == old(storage).mappers@.push(mapper),
            last == storage.mappers@.len() - 1,
            wanted@ == wanted_by(storage.physical_volumes@.take(i as int), mapper),
        decreases storage.physical_volumes@.len() - i,
    {
        let level = storage.mappers[last].handles_pv(&storage.physical_volumes[i].volume);
        proof {
            let vols = storage.physical_volumes@;
            assert(vols.take(i + 1).drop_last() == vols.take(i as int));
        }
        if level != 0 {
            wanted.push(storage.physical_volumes[i].id);
        }
        i = i + 1;
    }
    assert(storage.physical_volumes@.take(i as int) == storage.physical_volumes@);
    wanted
}

/// The registered volumes: the number and the name of each.
pub fn enum_pvs<P: PhysicalVolume, M: Mapper<P>>(storage: &Storage<P, M>) -> (list: Vec<
    (usize, String),
>)
    ensures
        list@.len() == storage.physical_volumes@.len(),
        forall|i: int|
            0 <= i < list@.len() ==> (#[trigger] list@[i]).0 == storage.physical_volumes@[i].id
                && list@[i].1@ == storage.physical_volumes@[i].volume.name_of(),
{
    let mut list: Vec<(usize, String)> = Vec::new();
    let mut i: usize = 0;
    while i < storage.physical_volumes.len()
        invariant
            i <= storage.physical_volumes@.len(),
            list@.len() == i,
            forall|k: int|
                0 <= k < i ==> (#[trigger] list@[k]).0 == storage.physical_volumes@[k].id
                    && list@[k].1@ == storage.physical_volumes@[k].volume.name_of(),
        decreases storage.physical_volumes@.len() - i,
    {
        let name = storage.physical_volumes[i].volume.name();
        list.push((storage.physical_volumes[i].id, name));
        i = i + 1;
    }
    list
}

/// The decimal digits of a number, the most significant first; none for
/// zero.
pub open spec fn digits_of(n: nat) -> Seq<u8>
    decreases n,
{
    if n == 0 {
        Seq::empty()
    } else {
        digits_of(n / 10).push((0x30 + n % 10) as u8)
    }
}

/// A number in decimal: its digits, or `0` for zero.
pub open spec fn decimal(n: nat) -> Seq<u8> {
    if n == 0 {
        seq![0x30u8]
    } else {
        digits_of(n)
    }
}

/// The text of a size: the bytes below 4096, and above that the whole
/// kibibytes, mebibytes or gibibytes, each unit up to 4096 of its own.
pub open spec fn size_text(bytes: u64) -> Seq<u8> {
    if bytes < 0x1000 {
        decimal(bytes as nat) + seq![0x42u8]
    } else if bytes < 0x40_0000 {
        decimal((bytes / 0x400) as nat) + seq![0x4Bu8, 0x69u8, 0x42u8]
    } else if bytes < 0x1_0000_0000 {
        decimal((bytes / 0x10_0000) as nat) + seq![0x4Du8, 0x69u8, 0x42u8]
    } else {
        decimal((bytes / 0x4000_0000) as nat) + seq![0x47u8, 0x69u8, 0x42u8]
    }
}

/// Writes `n` in decimal at the end of `out`.
fn push_decimal(out: &mut Vec<u8>, n: u64)
    ensures
        final(out)@ == old(out)@ + decimal(n as nat),
{
    if n == 0 {
        out.push(0x30);
        return ;
    }
    let mut low_first: Vec<u8> = Vec::new();
    let mut rest = n;
    while rest > 0
        invariant
            digits_of(n as nat) == digits_of(rest as nat) + low_first@.reverse(),
        decreases rest,
    {
        let digit = (rest % 10) as u8;
        low_first.push(0x30 + digit);
        rest = rest / 10;
    }
    let ghost start = out@;
    let mut i: usize = low_first.len();
    while i > 0
        invariant
            i <= low_first@.len(),
            out@ == start + low_first@.reverse().take(low_first@.len() - i),
        decreases i,
    {
        i = i - 1;
        out.push(low_first[i]);
    }
}

impl SizePrinter {
    /// The text of the size.
    pub fn text(&self) -> (text: Vec<u8>)
        ensures
            text@ == size_text(self.0),
    {
        let mut out: Vec<u8> = Vec::new();
        if self.0 < 4096 {
            push_decimal(&mut out, self.0);
            out.push(0x42);
        } else if self.0 < 4096 * 1024 {
            push_decimal(&mut out, self.0 / 1024);
            out.push(0x4B);
            out.push(0x69);
            out.push(0x42);
        } else if self.0 < 4096 * 1024 * 1024 {
            push_decimal(&mut out, self.0 / (1024 * 1024));
            out.push(0x4D);
            out.push(0x69);
            out.push(0x42);
        } else {
            push_decimal(&mut out, self.0 / (1024 * 1024 * 1024));
            out.push(0x47);
            out.push(0x69);
            out.push(0x42);
        }
        out
    }
}

} // verus!
