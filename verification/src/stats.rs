//! The counters that a search reports.

use vstd::prelude::*;

verus! {

/// What one search, or several together, found and did.
#[derive(Debug, Clone, Copy, PartialEq, Eq, Structural)]
pub struct ReadStats {
    /// The count of files encountered, skipped ones included.
    pub total_files_visited: usize,
    /// The count of files skipped because they are no UTF-8.
    pub skipped_files_non_utf8: usize,
    /// How many bytes were checked to tell whether files are UTF-8.
    pub non_utf8_bytes_checked: usize,
    /// The count of lines that matched.
    pub lines_matched_count: usize,
    /// The summed length of the lines that matched, in bytes.
    pub lines_matched_bytes: usize,
    /// The time spent walking the filesystem, in nanoseconds.
    pub filesystem_walk_dur: u128,
    /// The time spent searching readers, in nanoseconds.
    pub reader_search_dur: u128,
    /// The largest line buffer that a search ended with, in bytes.
    pub max_buffer_size: usize,
    /// The count of line buffers created.
    pub buffers_created: usize,
}

/// The larger of two numbers.
pub open spec fn larger(a: usize, b: usize) -> usize {
    if a < b {
        b
    } else {
        a
    }
}

impl ReadStats {
    /// Whether the counters of `self` and `other` can be summed without any
    /// of the sums leaving its type.
    pub open spec fn can_fold(&self, other: &ReadStats) -> bool {
        &&& self.total_files_visited + other.total_files_visited <= usize::MAX
        &&& self.skipped_files_non_utf8 + other.skipped_files_non_utf8 <= usize::MAX
        &&& self.non_utf8_bytes_checked + other.non_utf8_bytes_checked <= usize::MAX
        &&& self.lines_matched_count + other.lines_matched_count <= usize::MAX
        &&& self.lines_matched_bytes + other.lines_matched_bytes <= usize::MAX
        &&& self.filesystem_walk_dur + other.filesystem_walk_dur <= u128::MAX
        &&& self.reader_search_dur + other.reader_search_dur <= u128::MAX
        &&& self.buffers_created + other.buffers_created <= usize::MAX
    }

    /// The counters of `self` and `other` together: each the sum of the two,
    /// but for the largest buffer, which is the larger of the two.
    pub open spec fn folded(&self, other: &ReadStats) -> ReadStats {
        ReadStats {
            total_files_visited: (self.total_files_visited + other.total_files_visited) as usize,
            skipped_files_non_utf8: (self.skipped_files_non_utf8
                + other.skipped_files_non_utf8) as usize,
            non_utf8_bytes_checked: (self.non_utf8_bytes_checked
                + other.non_utf8_bytes_checked) as usize,
            lines_matched_count: (self.lines_matched_count + other.lines_matched_count) as usize,
            lines_matched_bytes: (self.lines_matched_bytes + other.lines_matched_bytes) as usize,
            filesystem_walk_dur: (self.filesystem_walk_dur + other.filesystem_walk_dur) as u128,
            reader_search_dur: (self.reader_search_dur + other.reader_search_dur) as u128,
            max_buffer_size: larger(self.max_buffer_size, other.max_buffer_size),
            buffers_created: (self.buffers_created + other.buffers_created) as usize,
        }
    }

    /// Adds the counters of `other` to those of `self`.
    pub fn fold_in(&mut self, other: &ReadStats)
        requires
            old(self).can_fold(other),
        ensures
            *final(self) == old(self).folded(other),
    {
        self.total_files_visited += other.total_files_visited;
        self.skipped_files_non_utf8 += other.skipped_files_non_utf8;
        self.non_utf8_bytes_checked += other.non_utf8_bytes_checked;
        self.lines_matched_count += other.lines_matched_count;
        self.lines_matched_bytes += other.lines_matched_bytes;
        self.filesystem_walk_dur += other.filesystem_walk_dur;
        self.reader_search_dur += other.reader_search_dur;
        self.max_buffer_size = if self.max_buffer_size < other.max_buffer_size {
            other.max_buffer_size
        } else {
            self.max_buffer_size
        };
        self.buffers_created += other.buffers_created;
    }

    /// Adds the counters of `other` to those of `self` where every sum fits,
    /// and says whether it did; where one does not, `self` stays as it is.
    pub fn try_fold_in(&mut self, other: &ReadStats) -> (folded: bool)
        ensures
            folded == old(self).can_fold(other),
            folded ==> *final(self) == old(self).folded(other),
            !folded ==> *final(self) == *old(self),
    {
        let fits = self.total_files_visited <= usize::MAX - other.total_files_visited
            && self.skipped_files_non_utf8 <= usize::MAX - other.skipped_files_non_utf8
            && self.non_utf8_bytes_checked <= usize::MAX - other.non_utf8_bytes_checked
            && self.lines_matched_count <= usize::MAX - other.lines_matched_count
            && self.lines_matched_bytes <= usize::MAX - other.lines_matched_bytes
            && self.filesystem_walk_dur <= u128::MAX - other.filesystem_walk_dur
            && self.reader_search_dur <= u128::MAX - other.reader_search_dur
            && self.buffers_created <= usize::MAX - other.buffers_created;
        if fits {
            self.fold_in(other);
        }
        fits
    }
}

impl Default for ReadStats {
    /// Counters that are all zero.
    fn default() -> (stats: Self)
        ensures
            stats == zero_stats(),
    {
        ReadStats {
            total_files_visited: 0,
            skipped_files_non_utf8: 0,
            non_utf8_bytes_checked: 0,
            lines_matched_count: 0,
            lines_matched_bytes: 0,
            filesystem_walk_dur: 0,
            reader_search_dur: 0,
            max_buffer_size: 0,
            buffers_created: 0,
        }
    }
}

/// Counters that are all zero.
pub open spec fn zero_stats() -> ReadStats {
    ReadStats {
        total_files_visited: 0,
        skipped_files_non_utf8: 0,
        non_utf8_bytes_checked: 0,
        lines_matched_count: 0,
        lines_matched_bytes: 0,
        filesystem_walk_dur: 0,
        reader_search_dur: 0,
        max_buffer_size: 0,
        buffers_created: 0,
    }
}

/// Folding is commutative: the order of the two operands does not matter.
pub proof fn lemma_fold_commutes(a: ReadStats, b: ReadStats)
    ensures
        a.can_fold(&b) == b.can_fold(&a),
        a.folded(&b) == b.folded(&a),
{
}

/// Folding is associative: where three records can be folded one way round,
/// they can the other way round, with the same result.
pub proof fn lemma_fold_associates(a: ReadStats, b: ReadStats, c: ReadStats)
    requires
        a.can_fold(&b),
        a.folded(&b).can_fold(&c),
    ensures
        b.can_fold(&c),
        a.can_fold(&b.folded(&c)),
        a.folded(&b).folded(&c) == a.folded(&b.folded(&c)),
{
}

/// Folding zero counters in changes nothing.
pub proof fn lemma_fold_zero(a: ReadStats)
    ensures
        a.can_fold(&zero_stats()),
        a.folded(&zero_stats()) == a,
        zero_stats().folded(&a) == a,
{
}

} // verus!
