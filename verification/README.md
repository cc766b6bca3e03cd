# file-recovery

A read-only file carver: it scans a source of bytes, such as a raw disk or a
disk image, for file signatures and copies what it finds out to another disk.

The library, under `src/`, is verified with Verus. The program around it, under
`app/`, opens devices, asks the user, writes files and draws progress bars.

## The library

| Module | What it holds |
|---|---|
| `disk` | positioned reads (`ReadAt`), kinds and sizes of sources |
| `signatures` | the signature database |
| `filter` | choosing file types, and which signatures that asks for |
| `scanner` | scanning in chunks, with block-wise retries |
| `formats`, `sizes` | validators, and parsers for sizes that files state |
| `carver` | from hits to recovery plans |
| `recovery` | scanning and planning in one go |
| `copying` | copying a planned range out |
| `output`, `report` | names of output files, totals, log entries |
| `safety` | warnings, confirmation, the same-disk check |
| `clearance` | the order of these checks, before a source is opened |
| `options`, `progress` | sizes as users write them, texts of progress bars |
| `text`, `pieces`, `bytes`, `error` | text, byte order, errors |
| `outside` | what is taken from rayon and the standard library, on trust |

## What is proved

A source may answer one and the same read in several ways: a disk can fail now
and then, or be written to by others. So a function that reads states which
results its reads may lead to. `steady_laws` shows that on a source that gives
one answer to each read, such as an image in memory, there is exactly one.

- `scan_laws`: a scan records every match, whether or not it spans two chunks,
  and none twice; the chunk size makes no difference; blocks that cannot be
  read match nothing.
- `order_laws`: the signatures of the database are recorded in the same order
  whatever the sizes of blocks and chunks are.
- `size_laws`: a GIF file ends with its trailer, and its size depends on its own
  bytes alone; a size that a file states does not depend on a cap beyond it.
- `plan_laws`: plans are ordered, lie within the source and the size limits,
  have a chosen type, and never start inside an earlier one of the same type;
  what is left out of a scan could not have led to a plan.
- `choice_laws`: a run for certain types finds what a run for all types finds,
  less the others; a larger maximum leaves files alone that were not cut off.
- `recovery_laws`: a file that stands in the source in one piece is planned as
  exactly the range that it occupies.
- `copying`: what is copied is that range, byte for byte.
- `output`: no two output files get the same name; each gets the least number
  that is free after the last one.
- `report`: the log has an entry for each file that was counted, and they add up
  to the totals.
- `clearance`: a source is opened only after all checks were passed on it.
