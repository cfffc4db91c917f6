//! The songs that come with the console.
use vstd::prelude::*;

verus! {

/// A bytebeat with its credits.
#[derive(Debug, Clone, Copy)]
pub struct Song {
    pub author: &'static str,
    pub name: &'static str,
    pub description: &'static str,
    pub code: &'static str,
}

/// The built-in songs, in the order of the table.
pub open spec fn built_in() -> Seq<Song> {
    seq![
        Song {
            author: "Community",
            name: "the 42 melody",
            description: "The melody everyone finds first",
            code: "t*(42&t>>10)",
        },
        Song {
            author: "SthephanShi",
            name: "Neurofunk",
            description: "Drums and bass from nested ternaries",
            code: "t*((t&4096?t%65536<59392?7:t&7:16)+(1&t>>14))>>(3&-t>>(t&2048?2:10))|t>>(t&16384?t&4096?10:3:2)",
        },
        Song {
            author: "Butterroach",
            name: "chip",
            description: "Chiptune built on logical operators",
            code: "(t&1024||t&16384&&t&2048&&!(t&512))?(t&4096&&!(t&2048)?(t*t*t>>~t*t)+127:t*((t>>11&1)+1)*(1+(t>>16&1)*3))*2:0",
        },
        Song {
            author: "WoolWL",
            name: "Bytebreak",
            description: "Breakbeat with comparisons and division",
            code: "((t&32767)>>13==2|(t&65535)>>12==9?(t^-(t/8&t>>5)*(t/8&127))&(-(t>>5)&255)*((t&65535)>>12==9?2:1):(t&8191)%((t>>5&255^240)==0?1:t>>5&255^240))/4*3+(t*4/(4+(t>>15&3))&128)*(-t>>11&2)*((t&32767)>>13!=2)/3",
        },
        Song {
            author: "SthephanShi",
            name: "Wheezing modem",
            description: "Left shifts against right shifts",
            code: "100*((t<<2|t>>5|t^63)&(t<<10|t>>11))",
        },
        Song {
            author: "Anonymous",
            name: "Electrohouse",
            description: "From Russian imageboards",
            code: "t>>(((t%2?t%((t>>13)%8>=2?((t>>13)%8>=4?41:51):61):t%34)))|(~t>>4)",
        },
        Song {
            author: "Anonymous",
            name: "THE HIT OF THE SEASON",
            description: "From Russian imageboards",
            code: "(t>0&t<65535?t%32>(t/10000)?t>>4:t>>6:0)&(t>>4)",
        },
    ]
}

/// The built-in songs. They are copyright their respective owners.
pub fn songs() -> (table: Vec<Song>)
    ensures
        table@ == built_in(),
{
    let mut table: Vec<Song> = Vec::new();
    table.push(
        Song {
            author: "Community",
            name: "the 42 melody",
            description: "The melody everyone finds first",
            code: "t*(42&t>>10)",
        },
    );
    table.push(
        Song {
            author: "SthephanShi",
            name: "Neurofunk",
            description: "Drums and bass from nested ternaries",
            code: "t*((t&4096?t%65536<59392?7:t&7:16)+(1&t>>14))>>(3&-t>>(t&2048?2:10))|t>>(t&16384?t&4096?10:3:2)",
        },
    );
    table.push(
        Song {
            author: "Butterroach",
            name: "chip",
            description: "Chiptune built on logical operators",
            code: "(t&1024||t&16384&&t&2048&&!(t&512))?(t&4096&&!(t&2048)?(t*t*t>>~t*t)+127:t*((t>>11&1)+1)*(1+(t>>16&1)*3))*2:0",
        },
    );
    table.push(
        Song {
            author: "WoolWL",
            name: "Bytebreak",
            description: "Breakbeat with comparisons and division",
            code: "((t&32767)>>13==2|(t&65535)>>12==9?(t^-(t/8&t>>5)*(t/8&127))&(-(t>>5)&255)*((t&65535)>>12==9?2:1):(t&8191)%((t>>5&255^240)==0?1:t>>5&255^240))/4*3+(t*4/(4+(t>>15&3))&128)*(-t>>11&2)*((t&32767)>>13!=2)/3",
        },
    );
    table.push(
        Song {
            author: "SthephanShi",
            name: "Wheezing modem",
            description: "Left shifts against right shifts",
            code: "100*((t<<2|t>>5|t^63)&(t<<10|t>>11))",
        },
    );
    table.push(
        Song {
            author: "Anonymous",
            name: "Electrohouse",
            description: "From Russian imageboards",
            code: "t>>(((t%2?t%((t>>13)%8>=2?((t>>13)%8>=4?41:51):61):t%34)))|(~t>>4)",
        },
    );
    table.push(
        Song {
            author: "Anonymous",
            name: "THE HIT OF THE SEASON",
            description: "From Russian imageboards",
            code: "(t>0&t<65535?t%32>(t/10000)?t>>4:t>>6:0)&(t>>4)",
        },
    );
    assert(table@ =~= built_in());
    table
}

} // verus!
