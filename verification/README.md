# omnect_os_init

The runtime stages of the omnect OS initramfs, verified with Verus:

- `factory_reset`: saves the paths to preserve, makes fresh file systems on the data and
  etc partitions, and puts the saved paths back. Its `files` says what becomes of files by
  that, its `laws` what holds of a reset as a whole.
- `resize_data`: grows the data partition and its file system on the first boot.
- `omnect_device_service`: creates the files that omnect-device-service reads when it
  starts.

## How procedures reach the system

A procedure does not touch the system. It takes a record of outcomes and a position in it.
Where it needs something done, it takes the next outcome off the record; where there is
none, it stops with the effect that it needs performed (`Stop::Perform`). Its caller
performs the effect, appends the outcome to the record, and runs the procedure again.

The contract of a procedure says exactly how far it gets with a given record: which effect
it asks for next, what it returns, or what it fails with. The public proof functions named
`law_…` state what holds of whole procedures, such as that nothing is erased before it is
saved, and that a longer record changes nothing of how a procedure ended.

## Layout

- `src/`: the verified library. `effect` holds effects, outcomes and records; `text`,
  `number`, `path` and `json` hold what the procedures compute with.
- `app/`: performs the effects on a real system.
- `tests/`: runs the library, mostly against systems in memory.
