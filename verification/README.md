# recovar

Recovery of deleted files from raw disks, as a library verified with Verus,
and the `recovar` command line around it.

The library (`src/`) holds what recovery decides:

- `carver`: the signature table (JPEG, PNG, GIF, BMP, MP4, MOV, AVI, MKV,
  PDF, DOCX/ZIP, MP3) and the carving engine, which finds headers in raw bytes and
  sizes each file through the first footer after its header.
- `fat`: the FAT32 quick scan, which reads the boot sector and the root
  directory and reports the entries that carry the deleted marker (0xE5),
  with the disk offset of their first data cluster.
- `ntfs`: the NTFS quick scan, which walks the Master File Table and reports
  deleted-file records with the name and size of their `$FILE_NAME`
  attribute.
- `recovery`: which scans run on a volume, how results are numbered, and how
  a found file is saved.
- `disk`: the `DiskReader` interface through which every scan reads, an
  in-memory disk, and the device paths of the platform backends.
- `android`, `cli`, `dto`: parsing of `adb` output, the filters and
  selections of the front ends, and the shapes handed to the desktop front
  end.
- `text`, `bytes`, `types`, `control`: strings, little-endian fields, the
  shared records, and progress and stop requests.

Every scan reads the disk and never changes it; each function states this in
its contract, along with what it gives back in terms of the disk's bytes.
Each scan that can be stopped comes in two forms: one that takes the shared
stop flag of a session, and one (`..._until`) that takes a stop check. Of the
second, the contracts also state the whole result where the check never
asks to stop and every read fills.

`app/` holds the command line (`scan`, `list`, `info`), the Linux, macOS and
Windows disk backends, the `adb` process calls, file output, and the commands of the
desktop front end without its window toolkit.
