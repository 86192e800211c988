//! The system-call entry: taking the arguments of a call apart, telling a
//! call on an object from a free one, and turning the outcome into the
//! number that goes back to the caller.
use vstd::prelude::*;

verus! {

/// An error in the form of a call.
#[derive(Debug, PartialEq, Eq)]
pub enum Error {
    /// The call has fewer arguments than it needs.
    TooManyArgs,
    /// An argument has a value that the call does not take.
    BadValue,
    /// A buffer argument, by address and length, is not the caller's to
    /// give.
    InvalidBuffer(usize, usize),
    /// A string argument is not text.
    InvalidUnicode,
}

/// The number that the entry returns for a call whose form was in error.
pub const FORMAT_ERROR: u64 = 0xFFFF_FFFF_FFFF_FFFF;

/// The bits of a call number that name the method of an object.
pub const CALL_MASK: u32 = 0x7FF;

/// What a call number asks for.
#[derive(Debug, PartialEq, Eq)]
pub enum Call {
    /// A call that is bound to no object, with its number.
    Free(u32),
    /// The object of this handle is destroyed.
    Destroy(u32),
    /// A method of the object of this handle is called.
    Method(u32, u16),
}

/// A buffer argument: an address and a length, as the caller gave them.
#[derive(Debug, PartialEq, Eq)]
pub struct Buffer {
    pub ptr: usize,
    pub len: usize,
}

/// How a page of the caller may be used.
#[derive(Debug, PartialEq, Eq)]
pub enum ProtectionMode {
    UserRO,
    UserRW,
    UserRX,
    UserRWX,
}

/// What a call number asks for: with the top bit off a free call, with it on
/// a call on the object whose handle is the low twenty bits, of the method
/// in the eleven bits above them; the method of all ones destroys the
/// object.
pub open spec fn call_of(call_id: u32) -> Call {
    if call_id & 0x8000_0000 == 0 {
        Call::Free(call_id)
    } else if (call_id >> 20) & CALL_MASK == CALL_MASK {
        Call::Destroy(call_id & 0xFFFFF)
    } else {
        Call::Method(call_id & 0xFFFFF, ((call_id >> 20) & CALL_MASK) as u16)
    }
}

/// Tells a call on an object from a free one.
pub fn split_call(call_id: u32) -> (call: Call)
    ensures
        call == call_of(call_id),
{
    if call_id & (1 << 31) == 0 {
        assert(call_id & (1u32 << 31) == call_id & 0x8000_0000) by (bit_vector);
        Call::Free(call_id)
    } else {
        assert(call_id & (1u32 << 31) == call_id & 0x8000_0000) by (bit_vector);
        let handle_id = (call_id >> 0) & 0xFFFFF;
        let method = (call_id >> 20) & CALL_MASK;
        assert((call_id >> 0) & 0xFFFFF == call_id & 0xFFFFF) by (bit_vector);
        if method == CALL_MASK {
            Call::Destroy(handle_id)
        } else {
            Call::Method(handle_id, method as u16)
        }
    }
}

/// The number that goes back to the caller: the value of a call that was
/// made, and all ones for a call whose form was in error.
pub fn invoke(outcome: Result<u64, Error>) -> (value: u64)
    ensures
        value == match outcome {
            Ok(v) => v,
            Err(_) => FORMAT_ERROR,
        },
{
    match outcome {
        Ok(v) => v,
        Err(_) => FORMAT_ERROR,
    }
}

/// The number that stands for error `value` of a call that was made: the
/// upper half of the numbers, counted from its start.
pub fn error_code(value: u32) -> (code: usize)
    requires
        value + usize::MAX / 2 <= usize::MAX,
    ensures
        code == value + usize::MAX / 2,
{
    value as usize + usize::MAX / 2
}

/// The arguments of a call that have not been taken yet.
pub struct Args<'a> {
    words: &'a [usize],
    pos: usize,
}

impl<'a> Args<'a> {
    /// The words that are left.
    pub closed spec fn rest(&self) -> Seq<usize> {
        if self.pos <= self.words@.len() {
            self.words@.skip(self.pos as int)
        } else {
            Seq::empty()
        }
    }

    /// The arguments of a call.
    pub fn new(words: &'a [usize]) -> (args: Args<'a>)
        ensures
            args.rest() == words@,
    {
        Args { words, pos: 0 }
    }

    /// Takes the next word.
    pub fn get_usize(&mut self) -> (arg: Result<usize, Error>)
        ensures
            old(self).rest().len() >= 1 ==> arg == Ok::<usize, Error>(old(self).rest()[0])
                && final(self).rest() == old(self).rest().skip(1),
            old(self).rest().len() < 1 ==> arg == Err::<usize, Error>(Error::TooManyArgs)
                && final(self).rest() == old(self).rest(),
    {
        if self.pos >= self.words.len() {
            return Err(Error::TooManyArgs);
        }
        let rv = self.words[self.pos];
        self.pos = self.pos + 1;
        Ok(rv)
    }

    /// Takes the next word as a 64-bit number.
    pub fn get_u64(&mut self) -> (arg: Result<u64, Error>)
        ensures
            old(self).rest().len() >= 1 ==> arg == Ok::<u64, Error>(old(self).rest()[0] as u64)
                && final(self).rest() == old(self).rest().skip(1),
            old(self).rest().len() < 1 ==> arg == Err::<u64, Error>(Error::TooManyArgs)
                && final(self).rest() == old(self).rest(),
    {
        match self.get_usize() {
            Ok(v) => Ok(v as u64),
            Err(e) => Err(e),
        }
    }

    /// Takes the next word, cut to 32 bits.
    pub fn get_u32(&mut self) -> (arg: Result<u32, Error>)
        ensures
            old(self).rest().len() >= 1 ==> arg == Ok::<u32, Error>(
                (old(self).rest()[0] & 0xFFFF_FFFF) as u32,
            ) && final(self).rest() == old(self).rest().skip(1),
            old(self).rest().len() < 1 ==> arg == Err::<u32, Error>(Error::TooManyArgs)
                && final(self).rest() == old(self).rest(),
    {
        match self.get_usize() {
            Ok(v) => {
                assert(v as u32 == (v & 0xFFFF_FFFF) as u32) by (bit_vector);
                Ok(#[verifier::truncate] (v as u32))
            },
            Err(e) => Err(e),
        }
    }

    /// Takes the next word, cut to 8 bits.
    pub fn get_u8(&mut self) -> (arg: Result<u8, Error>)
        ensures
            old(self).rest().len() >= 1 ==> arg == Ok::<u8, Error>(
                (old(self).rest()[0] & 0xFF) as u8,
            ) && final(self).rest() == old(self).rest().skip(1),
            old(self).rest().len() < 1 ==> arg == Err::<u8, Error>(Error::TooManyArgs)
                && final(self).rest() == old(self).rest(),
    {
        match self.get_usize() {
            Ok(v) => {
                assert(v as u8 == (v & 0xFF) as u8) by (bit_vector);
                Ok(#[verifier::truncate] (v as u8))
            },
            Err(e) => Err(e),
        }
    }

    /// Takes the next two words as the address and the length of a buffer.
    /// Whether the buffer is the caller's to give is for the caller of this
    /// function to find out.
    pub fn get_arg(&mut self) -> (arg: Result<Buffer, Error>)
        ensures
            old(self).rest().len() >= 2 ==> arg == Ok::<Buffer, Error>(
                Buffer { ptr: old(self).rest()[0], len: old(self).rest()[1] },
            ) && final(self).rest() == old(self).rest().skip(2),
            old(self).rest().len() < 2 ==> arg == Err::<Buffer, Error>(Error::TooManyArgs)
                && final(self).rest() == old(self).rest(),
    {
        if self.pos > self.words.len() || self.words.len() - self.pos < 2 {
            return Err(Error::TooManyArgs);
        }
        let ptr = self.words[self.pos];
        let len = self.words[self.pos + 1];
        self.pos = self.pos + 2;
        Ok(Buffer { ptr, len })
    }
}

/// The protection that a mode number of a call stands for.
pub fn protection_mode(mode: u8) -> (decoded: Result<ProtectionMode, Error>)
    ensures
        decoded == match mode {
            0u8 => Ok::<ProtectionMode, Error>(ProtectionMode::UserRO),
            1u8 => Ok::<ProtectionMode, Error>(ProtectionMode::UserRW),
            2u8 => Ok::<ProtectionMode, Error>(ProtectionMode::UserRX),
            3u8 => Ok::<ProtectionMode, Error>(ProtectionMode::UserRWX),
            _ => Err::<ProtectionMode, Error>(Error::BadValue),
        },
{
    match mode {
        0 => Ok(ProtectionMode::UserRO),
        1 => Ok(ProtectionMode::UserRW),
        2 => Ok(ProtectionMode::UserRX),
        3 => Ok(ProtectionMode::UserRWX),
        _ => Err(Error::BadValue),
    }
}


/// The calls that are bound to no object. Which number stands for which is
/// the caller's table to know.
#[derive(Clone, Copy, Debug, PartialEq, Eq)]
pub enum FreeCall {
    LogWrite,
    ExitProcess,
    ExitThread,
    StartThread,
    StartProcess,
    GuiNewGroup,
    GuiNewWindow,
    VfsOpenNode,
    VfsOpenFile,
    VfsOpenDir,
    MemAllocate,
    MemReprotect,
    MemDeallocate,
    Unknown,
}

/// A free call with its arguments taken apart. Buffers are as the caller
/// gave them: whether they are the caller's to give is found out by whoever
/// carries the request out.
#[derive(Debug, PartialEq, Eq)]
pub enum Request {
    LogWrite(Buffer),
    ExitProcess(u32),
    ExitThread,
    StartThread { ip: usize, sp: usize },
    StartProcess { ip: usize, sp: usize, start: usize, end: usize },
    GuiNewGroup(Buffer),
    GuiNewWindow(Buffer),
    VfsOpenNode,
    VfsOpenFile { name: Buffer, mode: u32 },
    VfsOpenDir,
    MemAllocate { addr: usize, count: usize },
    MemReprotect { addr: usize, protection: ProtectionMode },
    MemDeallocate { addr: usize },
    Unknown,
}

/// The number of words that a free call takes.
pub open spec fn words_of(call: FreeCall) -> nat {
    match call {
        FreeCall::LogWrite => 2,
        FreeCall::ExitProcess => 1,
        FreeCall::ExitThread => 0,
        FreeCall::StartThread => 2,
        FreeCall::StartProcess => 4,
        FreeCall::GuiNewGroup => 2,
        FreeCall::GuiNewWindow => 2,
        FreeCall::VfsOpenNode => 0,
        FreeCall::VfsOpenFile => 3,
        FreeCall::VfsOpenDir => 0,
        FreeCall::MemAllocate => 2,
        FreeCall::MemReprotect => 2,
        FreeCall::MemDeallocate => 1,
        FreeCall::Unknown => 0,
    }
}

/// The protection that the low byte of a word stands for, if any.
pub open spec fn protection_of(word: usize) -> Option<ProtectionMode> {
    let mode = word & 0xFF;
    if mode == 0 {
        Some(ProtectionMode::UserRO)
    } else if mode == 1 {
        Some(ProtectionMode::UserRW)
    } else if mode == 2 {
        Some(ProtectionMode::UserRX)
    } else if mode == 3 {
        Some(ProtectionMode::UserRWX)
    } else {
        None
    }
}

/// What a free call with the words `w` asks for, where user memory ends at
/// `user_end`: an error if the words are too few, if the range of a new
/// process is not a range of user memory, or if a protection is none of the
/// four; else the call with its arguments.
pub open spec fn request_of(call: FreeCall, w: Seq<usize>, user_end: usize) -> Result<
    Request,
    Error,
> {
    if w.len() < words_of(call) {
        Err(Error::TooManyArgs)
    } else {
        match call {
            FreeCall::LogWrite => Ok(Request::LogWrite(Buffer { ptr: w[0], len: w[1] })),
            FreeCall::ExitProcess => Ok(Request::ExitProcess((w[0] & 0xFFFF_FFFF) as u32)),
            FreeCall::ExitThread => Ok(Request::ExitThread),
            FreeCall::StartThread => Ok(Request::StartThread { ip: w[0], sp: w[1] }),
            FreeCall::StartProcess => if w[2] > w[3] || w[3] > user_end {
                Err(Error::BadValue)
            } else {
                Ok(Request::StartProcess { ip: w[0], sp: w[1], start: w[2], end: w[3] })
            },
            FreeCall::GuiNewGroup => Ok(Request::GuiNewGroup(Buffer { ptr: w[0], len: w[1] })),
            FreeCall::GuiNewWindow => Ok(Request::GuiNewWindow(Buffer { ptr: w[0], len: w[1] })),
            FreeCall::VfsOpenNode => Ok(Request::VfsOpenNode),
            FreeCall::VfsOpenFile => Ok(
                Request::VfsOpenFile {
                    name: Buffer { ptr: w[0], len: w[1] },
                    mode: (w[2] & 0xFFFF_FFFF) as u32,
                },
            ),
            FreeCall::VfsOpenDir => Ok(Request::VfsOpenDir),
            FreeCall::MemAllocate => Ok(Request::MemAllocate { addr: w[0], count: w[1] }),
            FreeCall::MemReprotect => match protection_of(w[1]) {
                Some(mode) => Ok(Request::MemReprotect { addr: w[0], protection: mode }),
                None => Err(Error::BadValue),
            },
            FreeCall::MemDeallocate => Ok(Request::MemDeallocate { addr: w[0] }),
            FreeCall::Unknown => Ok(Request::Unknown),
        }
    }
}

/// Takes the arguments of a free call apart, and refuses the call if they
/// are too few or have a value that the call does not take.
pub fn invoke_int(call: FreeCall, words: &[usize], user_end: usize) -> (request: Result<
    Request,
    Error,
>)
    ensures
        request == request_of(call, words@, user_end),
{
    let mut args = Args::new(words);
    match call {
        FreeCall::LogWrite => {
            let msg = match args.get_arg() {
                Ok(v) => v,
                Err(e) => {
                    return Err(e);
                },
            };
            Ok(Request::LogWrite(msg))
        },
        FreeCall::ExitProcess => {
            let status = match args.get_u32() {
                Ok(v) => v,
                Err(e) => {
                    return Err(e);
                },
            };
            Ok(Request::ExitProcess(status))
        },
        FreeCall::ExitThread => Ok(Request::ExitThread),
        FreeCall::StartThread => {
            let ip = match args.get_usize() {
                Ok(v) => v,
                Err(e) => {
                    return Err(e);
                },
            };
            let sp = match args.get_usize() {
                Ok(v) => v,
                Err(e) => {
                    return Err(e);
                },
            };
            Ok(Request::StartThread { ip, sp })
        },
        FreeCall::StartProcess => {
            let ip = match args.get_usize() {
                Ok(v) => v,
                Err(e) => {
                    return Err(e);
                },
            };
            let sp = match args.get_usize() {
                Ok(v) => v,
                Err(e) => {
                    return Err(e);
                },
            };
            let start = match args.get_usize() {
                Ok(v) => v,
                Err(e) => {
                    return Err(e);
                },
            };
            let end = match args.get_usize() {
                Ok(v) => v,
                Err(e) => {
                    return Err(e);
                },
            };
            if start > end || end > user_end {
                return Err(Error::BadValue);
            }
            Ok(Request::StartProcess { ip, sp, start, end })
        },
        FreeCall::GuiNewGroup => {
            let name = match args.get_arg() {
                Ok(v) => v,
                Err(e) => {
                    return Err(e);
                },
            };
            Ok(Request::GuiNewGroup(name))
        },
        FreeCall::GuiNewWindow => {
            let name = match args.get_arg() {
                Ok(v) => v,
                Err(e) => {
                    return Err(e);
                },
            };
            Ok(Request::GuiNewWindow(name))
        },
        FreeCall::VfsOpenNode => Ok(Request::VfsOpenNode),
        FreeCall::VfsOpenFile => {
            let name = match args.get_arg() {
                Ok(v) => v,
                Err(e) => {
                    return Err(e);
                },
            };
            let mode = match args.get_u32() {
                Ok(v) => v,
                Err(e) => {
                    return Err(e);
                },
            };
            Ok(Request::VfsOpenFile { name, mode })
        },
        FreeCall::VfsOpenDir => Ok(Request::VfsOpenDir),
        FreeCall::MemAllocate => {
            let addr = match args.get_usize() {
                Ok(v) => v,
                Err(e) => {
                    return Err(e);
                },
            };
            let count = match args.get_usize() {
                Ok(v) => v,
                Err(e) => {
                    return Err(e);
                },
            };
            Ok(Request::MemAllocate { addr, count })
        },
        FreeCall::MemReprotect => {
            let addr = match args.get_usize() {
                Ok(v) => v,
                Err(e) => {
                    return Err(e);
                },
            };
            let mode = match args.get_u8() {
                Ok(v) => v,
                Err(e) => {
                    return Err(e);
                },
            };
            proof {
                let w = words@[1];
                assert(w & 0xFF < 256) by (bit_vector);
            }
            let mode = match protection_mode(mode) {
                Ok(v) => v,
                Err(e) => {
                    return Err(e);
                },
            };
            Ok(Request::MemReprotect { addr, protection: mode })
        },
        FreeCall::MemDeallocate => {
            let addr = match args.get_usize() {
                Ok(v) => v,
                Err(e) => {
                    return Err(e);
                },
            };
            Ok(Request::MemDeallocate { addr })
        },
        FreeCall::Unknown => Ok(Request::Unknown),
    }
}

/// The value of an open-file call: the handle of the file, or the error
/// with the top bit of 32 set.
pub fn open_file_value(opened: Result<u32, u32>) -> (value: u64)
    ensures
        value == match opened {
            Ok(handle) => handle as u64,
            Err(error) => (0x8000_0000u32 | error) as u64,
        },
{
    match opened {
        Ok(handle) => handle as u64,
        Err(error) => {
            assert(1u32 << 31 == 0x8000_0000u32) by (bit_vector);
            ((1u32 << 31) | error) as u64
        },
    }
}

} // verus!
