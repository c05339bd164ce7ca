//! Size accounting and rotation plan for the debug log file.

use vstd::prelude::*;

verus! {

/// Max log file size before we rotate (1 MB).
pub const MAX_LOG_BYTES: u64 = 1_048_576;

/// How many rotated files to keep (debug.log, debug.1.log).
pub const MAX_ROTATED_FILES: u32 = 1;

/// The number of bytes written to the current debug log file.
#[derive(Debug)]
pub struct LogBudget {
    bytes_written: u64,
}

impl View for LogBudget {
    type V = u64;

    closed spec fn view(&self) -> u64 {
        self.bytes_written
    }
}

/// The bytes held by the current file after a line of `line_bytes` is written: the file is
/// rotated first when the line would take it past `MAX_LOG_BYTES`.
pub open spec fn bytes_after_line(written: int, line_bytes: int) -> int {
    if written + line_bytes <= MAX_LOG_BYTES { written + line_bytes } else { line_bytes }
}

impl LogBudget {
    /// A fresh, empty log file.
    pub fn new() -> (budget: Self)
        ensures
            budget@ == 0,
    {
        LogBudget { bytes_written: 0 }
    }

    pub fn bytes_written(&self) -> (bytes: u64)
        ensures
            bytes == self@,
    {
        self.bytes_written
    }

    /// The bytes a line of `line_len` bytes takes in the file, with its newline.
    pub fn line_bytes(line_len: usize) -> (bytes: u64)
        requires
            line_len < u64::MAX,
        ensures
            bytes == line_len + 1,
    {
        line_len as u64 + 1
    }

    /// Whether the file must be rotated before a line of `next_line_bytes` is written:
    /// when the line would take it past `MAX_LOG_BYTES`.
    pub fn needs_rotation(&self, next_line_bytes: u64) -> (rotate: bool)
        requires
            self@ + next_line_bytes <= u64::MAX,
        ensures
            rotate == (self@ + next_line_bytes > MAX_LOG_BYTES),
    {
        self.bytes_written + next_line_bytes > MAX_LOG_BYTES
    }

    /// The count for a freshly rotated, empty file.
    pub fn reset(&mut self)
        ensures
            final(self)@ == 0,
    {
        self.bytes_written = 0;
    }

    /// Counts a line of `line_bytes` written to the file.
    pub fn record_write(&mut self, line_bytes: u64)
        requires
            old(self)@ + line_bytes <= u64::MAX,
        ensures
            final(self)@ == old(self)@ + line_bytes,
    {
        self.bytes_written = self.bytes_written + line_bytes;
    }

    /// The rotated-file numbers to delete before rotating, highest first:
    /// `MAX_ROTATED_FILES + 4` down to `MAX_ROTATED_FILES`.
    pub fn rotation_removals() -> (numbers: Vec<u32>)
        ensures
            numbers@.len() == 5,
            forall|k: int| 0 <= k < 5 ==> #[trigger] numbers@[k] == MAX_ROTATED_FILES + 4 - k,
    {
        let mut numbers: Vec<u32> = Vec::new();
        let mut i: u32 = MAX_ROTATED_FILES + 5;
        while i > MAX_ROTATED_FILES
            invariant
                MAX_ROTATED_FILES <= i <= MAX_ROTATED_FILES + 5,
                numbers@.len() == MAX_ROTATED_FILES + 5 - i,
                forall|k: int| 0 <= k < numbers@.len() ==> #[trigger] numbers@[k] == MAX_ROTATED_FILES + 4 - k,
            decreases i,
        {
            i -= 1;
            numbers.push(i);
        }
        numbers
    }

    /// The renames that shift the kept rotated files up by one number before the current
    /// file becomes number 1, highest first: `(i, i + 1)` for `i` from
    /// `MAX_ROTATED_FILES - 1` down to 1.
    pub fn rotation_renames() -> (renames: Vec<(u32, u32)>)
        ensures
            renames@.len() == MAX_ROTATED_FILES - 1,
            forall|k: int|
                0 <= k < renames@.len() ==> #[trigger] renames@[k] == (
                    (MAX_ROTATED_FILES - 1 - k) as u32,
                    (MAX_ROTATED_FILES - k) as u32,
                ),
    {
        let mut renames: Vec<(u32, u32)> = Vec::new();
        let mut i: u32 = MAX_ROTATED_FILES;
        while i > 1
            invariant
                1 <= i <= MAX_ROTATED_FILES,
                renames@.len() == MAX_ROTATED_FILES - i,
                forall|k: int|
                    0 <= k < renames@.len() ==> #[trigger] renames@[k] == (
                        (MAX_ROTATED_FILES - 1 - k) as u32,
                        (MAX_ROTATED_FILES - k) as u32,
                    ),
            decreases i,
        {
            i -= 1;
            renames.push((i, i + 1));
        }
        renames
    }
}

/// A file kept within the limit stays within it line after line, unless a single line is
/// larger than the limit: rotating when a line would overflow the file and then counting
/// the line leaves at most the larger of `MAX_LOG_BYTES` and that line.
pub proof fn log_file_stays_within_limit(written: int, line_bytes: int)
    requires
        0 <= written <= MAX_LOG_BYTES,
        0 <= line_bytes,
    ensures
        bytes_after_line(written, line_bytes) <= if line_bytes > MAX_LOG_BYTES {
            line_bytes
        } else {
            MAX_LOG_BYTES as int
        },
        line_bytes <= MAX_LOG_BYTES ==> bytes_after_line(written, line_bytes) <= MAX_LOG_BYTES,
{
}

} // verus!
